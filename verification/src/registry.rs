//! The theme and syntax registries, and theme resolution.
//!
//! The registries are read-only asset stores the host constructs once per
//! process; the render path only looks names up in them. Theme resolution
//! recovers from a missing theme by substituting the default theme under a
//! non-fatal diagnostic; only a registry without even the default theme is a
//! fatal configuration error.

use crate::color::Rgba;
use crate::error::Error;
use crate::text::str_eq;
use vstd::prelude::*;
use vstd::string::*;

verus! {

/// The name of the theme used whenever none is given or the given one is
/// missing. The registry is expected to always ship it.
pub open spec fn spec_default_theme() -> Seq<char> {
    "Dracula"@
}

/// The plain-value model of a theme: the chrome colors the render pipeline
/// reads. The highlighting engine holds the token styles under the same
/// name; this value carries what the compositor itself needs.
#[derive(Debug, Clone)]
pub struct Theme {
    /// The registry name of the theme.
    pub name: String,
    /// The panel background color.
    pub background: Rgba,
    /// The default text color, used for the gutter and chrome text.
    pub foreground: Rgba,
    /// The background band color for emphasized lines.
    pub highlight: Rgba,
}

/// A read-only store of themes, looked up by name.
#[derive(Debug)]
pub struct ThemeRegistry {
    pub themes: Vec<Theme>,
}

/// The first theme of `themes` carrying `name`, if any.
pub open spec fn first_named(themes: Seq<Theme>, name: Seq<char>) -> Option<Theme>
    decreases themes.len(),
{
    if themes.len() == 0 {
        None
    } else if themes[0].name@ == name {
        Some(themes[0])
    } else {
        first_named(themes.drop_first(), name)
    }
}

proof fn lemma_first_named_found(themes: Seq<Theme>, name: Seq<char>, i: int)
    requires
        0 <= i < themes.len(),
        themes[i].name@ == name,
        forall|j: int| 0 <= j < i ==> themes[j].name@ != name,
    ensures
        first_named(themes, name) == Some(themes[i]),
    decreases i,
{
    if i == 0 {
    } else {
        lemma_first_named_found(themes.drop_first(), name, i - 1);
    }
}

proof fn lemma_first_named_none(themes: Seq<Theme>, name: Seq<char>)
    requires
        forall|j: int| 0 <= j < themes.len() ==> themes[j].name@ != name,
    ensures
        first_named(themes, name) is None,
    decreases themes.len(),
{
    if themes.len() == 0 {
    } else {
        lemma_first_named_none(themes.drop_first(), name);
    }
}

/// The diagnostic emitted when the requested theme is missing.
pub open spec fn spec_theme_diagnostic(requested: Seq<char>) -> Seq<char> {
    "Could not load '"@ + requested + "' theme."@
}

impl ThemeRegistry {
    /// Wraps the themes the host loaded into a registry.
    pub fn new(themes: Vec<Theme>) -> (r: ThemeRegistry)
        ensures
            r.themes@ == themes@,
    {
        ThemeRegistry { themes }
    }

    /// The names of every theme the registry holds, in order.
    pub fn list_themes(&self) -> (r: Vec<String>)
        ensures
            r.deep_view() == self.themes@.map_values(|t: Theme| t.name@),
    {
        let mut names: Vec<String> = Vec::new();
        let ghost all = self.themes@.map_values(|t: Theme| t.name@);
        proof {
            assert(names.deep_view() =~= all.take(0));
        }
        let mut i: usize = 0;
        while i < self.themes.len()
            invariant
                i <= self.themes@.len(),
                all == self.themes@.map_values(|t: Theme| t.name@),
                names.deep_view() == all.take(i as int),
            decreases self.themes@.len() - i,
        {
            let ghost prev = names.deep_view();
            names.push(self.themes[i].name.clone());
            proof {
                assert(names.deep_view() =~= prev.push(self.themes@[i as int].name@));
                assert(prev.push(self.themes@[i as int].name@) =~= all.take(i + 1));
            }
            i += 1;
        }
        proof {
            assert(all.take(self.themes@.len() as int) =~= all);
        }
        names
    }

    /// The first theme of the registry carrying `name`, if any.
    fn find(&self, name: &str) -> (r: Option<&Theme>)
        ensures
            match r {
                Some(t) => first_named(self.themes@, name@) == Some(*t),
                None => first_named(self.themes@, name@) is None,
            },
    {
        let mut i: usize = 0;
        while i < self.themes.len()
            invariant
                i <= self.themes@.len(),
                forall|j: int| 0 <= j < i ==> self.themes@[j].name@ != name@,
            decreases self.themes@.len() - i,
        {
            if str_eq(self.themes[i].name.as_str(), name) {
                proof {
                    lemma_first_named_found(self.themes@, name@, i as int);
                }
                return Some(&self.themes[i]);
            }
            i += 1;
        }
        proof {
            lemma_first_named_none(self.themes@, name@);
        }
        None
    }

    /// Resolves the theme an invocation asked for.
    ///
    /// A present theme resolves to itself with no diagnostic; an absent name
    /// resolves to the default theme with exactly one diagnostic; a registry
    /// missing even the default is a fatal configuration error. An absent
    /// request means the default name.
    pub fn resolve_theme(&self, requested: Option<&String>) -> (r: Result<
        (&Theme, Option<String>),
        Error,
    >)
        ensures
            ({
                let req = match requested {
                    Some(n) => n@,
                    None => spec_default_theme(),
                };
                match r {
                    Ok((t, diag)) => {
                        if first_named(self.themes@, req) is Some {
                            &&& Some(*t) == first_named(self.themes@, req)
                            &&& diag is None
                        } else {
                            &&& Some(*t) == first_named(self.themes@, spec_default_theme())
                            &&& diag matches Some(d) && d@ == spec_theme_diagnostic(req)
                        }
                    },
                    Err(e) => {
                        &&& e == Error::ThemeRegistryCorrupt
                        &&& first_named(self.themes@, req) is None
                        &&& first_named(self.themes@, spec_default_theme()) is None
                    },
                }
            }),
    {
        let name: &str = match requested {
            Some(n) => n.as_str(),
            None => "Dracula",
        };
        match self.find(name) {
            Some(t) => Ok((t, None)),
            None => {
                let diag = String::from_str("Could not load '").concat(name).concat("' theme.");
                match self.find("Dracula") {
                    Some(t) => Ok((t, Some(diag))),
                    None => Err(Error::ThemeRegistryCorrupt),
                }
            },
        }
    }
}

/// A read-only store of the language tokens a syntax definition exists for.
#[derive(Debug)]
pub struct SyntaxRegistry {
    pub tokens: Vec<String>,
}

impl SyntaxRegistry {
    /// Wraps the tokens the host's highlighting engine answers to.
    pub fn new(tokens: Vec<String>) -> (r: SyntaxRegistry)
        ensures
            r.tokens@ == tokens@,
    {
        SyntaxRegistry { tokens }
    }

    /// Whether a syntax definition answers to `token`.
    pub fn has_syntax(&self, token: &str) -> (r: bool)
        ensures
            r == self.tokens.deep_view().contains(token@),
    {
        let mut i: usize = 0;
        while i < self.tokens.len()
            invariant
                i <= self.tokens@.len(),
                forall|j: int| 0 <= j < i ==> self.tokens.deep_view()[j] != token@,
            decreases self.tokens@.len() - i,
        {
            if str_eq(self.tokens[i].as_str(), token) {
                proof {
                    assert(self.tokens.deep_view()[i as int] == token@);
                }
                return true;
            }
            i += 1;
        }
        proof {
            if self.tokens.deep_view().contains(token@) {
                let j = choose|j: int|
                    0 <= j < self.tokens.deep_view().len() && self.tokens.deep_view()[j] == token@;
                assert(self.tokens.deep_view()[j] != token@);
            }
        }
        false
    }

    /// Looks the syntax up, failing with `SyntaxNotFound` exactly when no
    /// definition answers to the token.
    pub fn find_syntax_by_token(&self, token: &str) -> (r: Result<(), Error>)
        ensures
            match r {
                Ok(()) => self.tokens.deep_view().contains(token@),
                Err(e) => {
                    &&& !self.tokens.deep_view().contains(token@)
                    &&& e matches Error::SyntaxNotFound(t) && t@ == token@
                },
            },
    {
        if self.has_syntax(token) {
            Ok(())
        } else {
            Err(Error::SyntaxNotFound(String::from_str(token)))
        }
    }
}

} // verus!
