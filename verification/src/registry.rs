//! Named syntaxes and themes, looked up fallibly, and the built-in set.

use vstd::prelude::*;

use crate::highlight::{highlight, highlight_model};
use crate::style::{lines_view, Rgba, StyledLine, Theme, ThemeModel};
use crate::syntax::{SyntaxDefinition, SyntaxModel};

verus! {

/// Why a highlighting request was rejected. Both kinds stem from a
/// caller-supplied identifier, never from the input text.
#[derive(Debug)]
pub enum HighlightError {
    /// No syntax definition is registered under the given key.
    UnknownSyntax(Vec<u8>),
    /// No theme is registered under the given name.
    UnknownTheme(Vec<u8>),
}

/// An immutable set of syntax definitions and themes, built once and then
/// shared read-only by every highlighting pass.
#[derive(Debug)]
pub struct Registry {
    pub syntaxes: Vec<SyntaxDefinition>,
    pub themes: Vec<Theme>,
}

/// The mathematical value of a [`Registry`].
pub ghost struct RegistryModel {
    pub syntaxes: Seq<SyntaxModel>,
    pub themes: Seq<ThemeModel>,
}

impl View for Registry {
    type V = RegistryModel;

    open spec fn view(&self) -> RegistryModel {
        RegistryModel {
            syntaxes: self.syntaxes@.map_values(|s: SyntaxDefinition| s@),
            themes: self.themes@.map_values(|t: Theme| t@),
        }
    }
}

/// The first syntax whose key is `key`, if any.
pub open spec fn lookup_syntax(ss: Seq<SyntaxModel>, key: Seq<u8>) -> Option<SyntaxModel>
    decreases ss.len(),
{
    if ss.len() == 0 {
        None
    } else if ss[0].key == key {
        Some(ss[0])
    } else {
        lookup_syntax(ss.skip(1), key)
    }
}

/// The first theme whose name is `name`, if any.
pub open spec fn lookup_theme(ts: Seq<ThemeModel>, name: Seq<u8>) -> Option<ThemeModel>
    decreases ts.len(),
{
    if ts.len() == 0 {
        None
    } else if ts[0].name == name {
        Some(ts[0])
    } else {
        lookup_theme(ts.skip(1), name)
    }
}

/// A lookup succeeds exactly when some entry carries the key.
pub proof fn lemma_lookup_syntax_found(ss: Seq<SyntaxModel>, key: Seq<u8>)
    ensures
        lookup_syntax(ss, key) is Some <==> exists|k: int| 0 <= k < ss.len() && ss[k].key == key,
    decreases ss.len(),
{
    if ss.len() == 0 {
    } else if ss[0].key == key {
    } else {
        lemma_lookup_syntax_found(ss.skip(1), key);
        if lookup_syntax(ss, key) is Some {
            let k = choose|k: int| 0 <= k < ss.skip(1).len() && ss.skip(1)[k].key == key;
            assert(ss[k + 1].key == key);
        }
        if exists|k: int| 0 <= k < ss.len() && ss[k].key == key {
            let k = choose|k: int| 0 <= k < ss.len() && ss[k].key == key;
            assert(k >= 1);
            assert(ss.skip(1)[k - 1].key == key);
        }
    }
}

/// A lookup succeeds exactly when some entry carries the name.
pub proof fn lemma_lookup_theme_found(ts: Seq<ThemeModel>, name: Seq<u8>)
    ensures
        lookup_theme(ts, name) is Some <==> exists|k: int| 0 <= k < ts.len() && ts[k].name == name,
    decreases ts.len(),
{
    if ts.len() == 0 {
    } else if ts[0].name == name {
    } else {
        lemma_lookup_theme_found(ts.skip(1), name);
        if lookup_theme(ts, name) is Some {
            let k = choose|k: int| 0 <= k < ts.skip(1).len() && ts.skip(1)[k].name == name;
            assert(ts[k + 1].name == name);
        }
        if exists|k: int| 0 <= k < ts.len() && ts[k].name == name {
            let k = choose|k: int| 0 <= k < ts.len() && ts[k].name == name;
            assert(k >= 1);
            assert(ts.skip(1)[k - 1].name == name);
        }
    }
}

impl Registry {
    /// Looks up a syntax definition by its key; an unknown key is reported as
    /// [`HighlightError::UnknownSyntax`], never a panic.
    #[verifier::loop_isolation(false)]
    pub fn find_syntax(&self, key: &[u8]) -> (r: Result<&SyntaxDefinition, HighlightError>)
        ensures
            match r {
                Ok(s) => lookup_syntax(self@.syntaxes, key@) == Some(s@),
                Err(e) => lookup_syntax(self@.syntaxes, key@) is None && (e matches
                    HighlightError::UnknownSyntax(k) && k@ == key@),
            },
    {
        proof {
            assert(self@.syntaxes.skip(0) =~= self@.syntaxes);
        }
        let mut idx: usize = 0;
        while idx < self.syntaxes.len()
            invariant
                idx <= self.syntaxes@.len(),
                lookup_syntax(self@.syntaxes, key@) == lookup_syntax(
                    self@.syntaxes.skip(idx as int),
                    key@,
                ),
            decreases self.syntaxes@.len() - idx,
        {
            let ghost rest = self@.syntaxes.skip(idx as int);
            proof {
                assert(rest[0] == self@.syntaxes[idx as int]);
            }
            if crate::scan::bytes_eq(self.syntaxes[idx].key.as_slice(), key) {
                return Ok(&self.syntaxes[idx]);
            }
            proof {
                assert(rest.skip(1) =~= self@.syntaxes.skip(idx + 1));
            }
            idx = idx + 1;
        }
        proof {
            assert(self@.syntaxes.skip(idx as int) =~= Seq::<SyntaxModel>::empty());
        }
        Err(HighlightError::UnknownSyntax(vstd::slice::slice_to_vec(key)))
    }

    /// Looks up a theme by its name; an unknown name is reported as
    /// [`HighlightError::UnknownTheme`], never a panic.
    #[verifier::loop_isolation(false)]
    pub fn find_theme(&self, name: &[u8]) -> (r: Result<&Theme, HighlightError>)
        ensures
            match r {
                Ok(t) => lookup_theme(self@.themes, name@) == Some(t@),
                Err(e) => lookup_theme(self@.themes, name@) is None && (e matches
                    HighlightError::UnknownTheme(n) && n@ == name@),
            },
    {
        proof {
            assert(self@.themes.skip(0) =~= self@.themes);
        }
        let mut idx: usize = 0;
        while idx < self.themes.len()
            invariant
                idx <= self.themes@.len(),
                lookup_theme(self@.themes, name@) == lookup_theme(
                    self@.themes.skip(idx as int),
                    name@,
                ),
            decreases self.themes@.len() - idx,
        {
            let ghost rest = self@.themes.skip(idx as int);
            proof {
                assert(rest[0] == self@.themes[idx as int]);
            }
            if crate::scan::bytes_eq(self.themes[idx].name.as_slice(), name) {
                return Ok(&self.themes[idx]);
            }
            proof {
                assert(rest.skip(1) =~= self@.themes.skip(idx + 1));
            }
            idx = idx + 1;
        }
        proof {
            assert(self@.themes.skip(idx as int) =~= Seq::<ThemeModel>::empty());
        }
        Err(HighlightError::UnknownTheme(vstd::slice::slice_to_vec(name)))
    }
}

/// Highlights `text` with the named syntax and theme. Fails atomically, before
/// any output is produced, exactly when the syntax key or the theme name is
/// unknown; the syntax key is checked first.
pub fn highlight_with_keys(
    reg: &Registry,
    text: &[u8],
    syntax_key: &[u8],
    theme_name: &[u8],
) -> (r: Result<Vec<StyledLine>, HighlightError>)
    ensures
        match r {
            Ok(out) => lookup_syntax(reg@.syntaxes, syntax_key@) matches Some(syn)
                && lookup_theme(reg@.themes, theme_name@) matches Some(th)
                && lines_view(out@) == highlight_model(syn, th, text@),
            Err(e) => match e {
                HighlightError::UnknownSyntax(k) => lookup_syntax(reg@.syntaxes, syntax_key@)
                    is None && k@ == syntax_key@,
                HighlightError::UnknownTheme(n) => lookup_syntax(reg@.syntaxes, syntax_key@)
                    is Some && lookup_theme(reg@.themes, theme_name@) is None && n@
                    == theme_name@,
            },
        },
{
    let syn = match reg.find_syntax(syntax_key) {
        Ok(s) => s,
        Err(e) => {
            return Err(e);
        },
    };
    let th = match reg.find_theme(theme_name) {
        Ok(t) => t,
        Err(e) => {
            return Err(e);
        },
    };
    Ok(highlight(syn, th, text))
}

/// The key of the built-in Rust-like syntax: `rs`.
pub open spec fn rust_key() -> Seq<u8> {
    seq!['r' as u8, 's' as u8]
}

/// The keywords of the built-in Rust-like syntax.
pub open spec fn rust_keywords() -> Seq<Seq<u8>> {
    seq![
        seq!['a' as u8, 's' as u8],
        seq!['f' as u8, 'n' as u8],
        seq!['i' as u8, 'f' as u8],
        seq!['l' as u8, 'e' as u8, 't' as u8],
        seq!['m' as u8, 'u' as u8, 't' as u8],
        seq!['p' as u8, 'u' as u8, 'b' as u8],
        seq!['u' as u8, 's' as u8, 'e' as u8],
        seq!['m' as u8, 'o' as u8, 'd' as u8],
        seq!['f' as u8, 'o' as u8, 'r' as u8],
        seq!['e' as u8, 'l' as u8, 's' as u8, 'e' as u8],
        seq!['e' as u8, 'n' as u8, 'u' as u8, 'm' as u8],
        seq!['i' as u8, 'm' as u8, 'p' as u8, 'l' as u8],
        seq!['t' as u8, 'r' as u8, 'u' as u8, 'e' as u8],
        seq!['l' as u8, 'o' as u8, 'o' as u8, 'p' as u8],
        seq!['m' as u8, 'a' as u8, 't' as u8, 'c' as u8, 'h' as u8],
        seq!['w' as u8, 'h' as u8, 'i' as u8, 'l' as u8, 'e' as u8],
        seq!['f' as u8, 'a' as u8, 'l' as u8, 's' as u8, 'e' as u8],
        seq!['t' as u8, 'r' as u8, 'a' as u8, 'i' as u8, 't' as u8],
        seq!['s' as u8, 't' as u8, 'r' as u8, 'u' as u8, 'c' as u8, 't' as u8],
        seq!['r' as u8, 'e' as u8, 't' as u8, 'u' as u8, 'r' as u8, 'n' as u8],
    ]
}

/// The built-in Rust-like syntax: `//` line comments, `/*` ... `*/` block
/// comments, double-quoted strings, and a fixed keyword and operator set.
pub open spec fn rust_syntax_model() -> SyntaxModel {
    SyntaxModel {
        key: rust_key(),
        keywords: rust_keywords(),
        line_comment: seq!['/' as u8, '/' as u8],
        block_start: seq!['/' as u8, '*' as u8],
        block_end: seq!['*' as u8, '/' as u8],
        operators: seq!['=' as u8, '+' as u8, '-' as u8, '*' as u8, '/' as u8, '%' as u8, '!' as u8, '&' as u8, '|' as u8, '<' as u8, '>' as u8, '^' as u8],
        string_delims: seq!['"' as u8],
    }
}

/// The name of the built-in theme: `base16-ocean.dark`.
pub open spec fn ocean_dark_name() -> Seq<u8> {
    seq!['b' as u8, 'a' as u8, 's' as u8, 'e' as u8, '1' as u8, '6' as u8, '-' as u8, 'o' as u8, 'c' as u8, 'e' as u8, 'a' as u8, 'n' as u8, '.' as u8, 'd' as u8, 'a' as u8, 'r' as u8, 'k' as u8]
}

/// The built-in theme, with the palette of base16-ocean dark.
pub open spec fn ocean_dark_model() -> ThemeModel {
    ThemeModel {
        name: ocean_dark_name(),
        keyword: Rgba { red: 180, green: 142, blue: 173, alpha: 255 },
        comment: Rgba { red: 101, green: 115, blue: 126, alpha: 255 },
        string_lit: Rgba { red: 163, green: 190, blue: 140, alpha: 255 },
        operator: Rgba { red: 192, green: 197, blue: 206, alpha: 255 },
        plain: Rgba { red: 192, green: 197, blue: 206, alpha: 255 },
    }
}

/// The built-in resources: the `rs` syntax and the `base16-ocean.dark` theme.
pub fn builtin_registry() -> (reg: Registry)
    ensures
        reg@.syntaxes == seq![rust_syntax_model()],
        reg@.themes == seq![ocean_dark_model()],
{
    let keywords: Vec<Vec<u8>> = vec![
        vec!['a' as u8, 's' as u8],
        vec!['f' as u8, 'n' as u8],
        vec!['i' as u8, 'f' as u8],
        vec!['l' as u8, 'e' as u8, 't' as u8],
        vec!['m' as u8, 'u' as u8, 't' as u8],
        vec!['p' as u8, 'u' as u8, 'b' as u8],
        vec!['u' as u8, 's' as u8, 'e' as u8],
        vec!['m' as u8, 'o' as u8, 'd' as u8],
        vec!['f' as u8, 'o' as u8, 'r' as u8],
        vec!['e' as u8, 'l' as u8, 's' as u8, 'e' as u8],
        vec!['e' as u8, 'n' as u8, 'u' as u8, 'm' as u8],
        vec!['i' as u8, 'm' as u8, 'p' as u8, 'l' as u8],
        vec!['t' as u8, 'r' as u8, 'u' as u8, 'e' as u8],
        vec!['l' as u8, 'o' as u8, 'o' as u8, 'p' as u8],
        vec!['m' as u8, 'a' as u8, 't' as u8, 'c' as u8, 'h' as u8],
        vec!['w' as u8, 'h' as u8, 'i' as u8, 'l' as u8, 'e' as u8],
        vec!['f' as u8, 'a' as u8, 'l' as u8, 's' as u8, 'e' as u8],
        vec!['t' as u8, 'r' as u8, 'a' as u8, 'i' as u8, 't' as u8],
        vec!['s' as u8, 't' as u8, 'r' as u8, 'u' as u8, 'c' as u8, 't' as u8],
        vec!['r' as u8, 'e' as u8, 't' as u8, 'u' as u8, 'r' as u8, 'n' as u8],
    ];
    let syntax = SyntaxDefinition {
        key: vec!['r' as u8, 's' as u8],
        keywords,
        line_comment: vec!['/' as u8, '/' as u8],
        block_start: vec!['/' as u8, '*' as u8],
        block_end: vec!['*' as u8, '/' as u8],
        operators: vec!['=' as u8, '+' as u8, '-' as u8, '*' as u8, '/' as u8, '%' as u8, '!' as u8, '&' as u8, '|' as u8, '<' as u8, '>' as u8, '^' as u8],
        string_delims: vec!['"' as u8],
    };
    let theme = Theme {
        name: vec!['b' as u8, 'a' as u8, 's' as u8, 'e' as u8, '1' as u8, '6' as u8, '-' as u8, 'o' as u8, 'c' as u8, 'e' as u8, 'a' as u8, 'n' as u8, '.' as u8, 'd' as u8, 'a' as u8, 'r' as u8, 'k' as u8],
        keyword: Rgba { red: 180, green: 142, blue: 173, alpha: 255 },
        comment: Rgba { red: 101, green: 115, blue: 126, alpha: 255 },
        string_lit: Rgba { red: 163, green: 190, blue: 140, alpha: 255 },
        operator: Rgba { red: 192, green: 197, blue: 206, alpha: 255 },
        plain: Rgba { red: 192, green: 197, blue: 206, alpha: 255 },
    };
    proof {
        assert(syntax@.key =~= rust_key());
        assert(syntax@.keywords =~~= rust_keywords());
        assert(syntax@.line_comment =~= rust_syntax_model().line_comment);
        assert(syntax@.block_start =~= rust_syntax_model().block_start);
        assert(syntax@.block_end =~= rust_syntax_model().block_end);
        assert(syntax@.operators =~= rust_syntax_model().operators);
        assert(syntax@.string_delims =~= rust_syntax_model().string_delims);
        assert(syntax@ == rust_syntax_model());
        assert(theme@.name =~= ocean_dark_name());
        assert(theme@ == ocean_dark_model());
    }
    let reg = Registry { syntaxes: vec![syntax], themes: vec![theme] };
    proof {
        assert(reg@.syntaxes =~= seq![rust_syntax_model()]);
        assert(reg@.themes =~= seq![ocean_dark_model()]);
    }
    reg
}

} // verus!
