//! Parsing font specifications.
//!
//! A specification is a `;`-separated list of `name[=size]` tokens, parsed
//! into an ordered fallback list of (family, point size) pairs. The canonical
//! default point size is 26; a missing or malformed size token falls back to
//! it rather than erroring. Sizes are whole points; any decimal number that
//! fits the size type is taken as given. If no token names the
//! guaranteed-present fallback family `Hack`, it is appended at the default
//! size, so the rendering backend always has at least one resolvable font.

use crate::text::{split_on, split_str, str_eq, lemma_split_on_nonempty};
use vstd::prelude::*;
use vstd::string::*;

verus! {

/// The point size a missing or malformed size token falls back to.
pub const DEFAULT_FONT_SIZE: u32 = 26;

/// One entry of the font fallback list: a family name and a point size.
#[derive(Debug, Clone)]
pub struct FontEntry {
    pub family: String,
    pub size: u32,
}

impl View for FontEntry {
    type V = (Seq<char>, u32);

    open spec fn view(&self) -> (Seq<char>, u32) {
        (self.family@, self.size)
    }
}

/// A style a watermark can ask for.
#[derive(Debug, Clone, Copy, PartialEq, Eq, Structural)]
pub enum FontStyle {
    Regular,
    Bold,
    Italic,
    BoldItalic,
}

/// Whether `c` is an ASCII decimal digit.
pub open spec fn is_digit(c: char) -> bool {
    '0' <= c && c <= '9'
}

/// Whether every character of `s` is a decimal digit.
pub open spec fn all_digits(s: Seq<char>) -> bool {
    forall|i: int| 0 <= i < s.len() ==> is_digit(s[i])
}

/// The number the digit string `s` writes in decimal.
pub open spec fn digits_val(s: Seq<char>) -> int
    decreases s.len(),
{
    if s.len() == 0 {
        0
    } else {
        digits_val(s.drop_last()) * 10 + (s.last() as int - '0' as int)
    }
}

proof fn lemma_digits_val_nonneg(s: Seq<char>)
    requires
        all_digits(s),
    ensures
        digits_val(s) >= 0,
    decreases s.len(),
{
    if s.len() == 0 {
    } else {
        assert(all_digits(s.drop_last()));
        lemma_digits_val_nonneg(s.drop_last());
    }
}

/// The point size a size token denotes: its decimal value when the token is
/// a well-formed number that fits the size type, the default size otherwise.
pub open spec fn spec_parse_size(d: Seq<char>) -> u32 {
    if d.len() > 0 && all_digits(d) && digits_val(d) <= 0xFFFF_FFFF {
        digits_val(d) as u32
    } else {
        DEFAULT_FONT_SIZE
    }
}

/// Parses a size token, as [`spec_parse_size`] describes.
fn parse_size(t: &str) -> (v: u32)
    ensures
        v == spec_parse_size(t@),
{
    let n = t.unicode_len();
    if n == 0 {
        return DEFAULT_FONT_SIZE;
    }
    let mut acc: u64 = 0;
    let mut over = false;
    let mut i: usize = 0;
    while i < n
        invariant
            i <= n,
            n == t@.len(),
            forall|j: int| 0 <= j < i ==> is_digit(#[trigger] t@[j]),
            !over ==> acc == digits_val(t@.take(i as int)) && acc <= 0xFFFF_FFFF,
            over ==> digits_val(t@.take(i as int)) > 0xFFFF_FFFF,
        decreases n - i,
    {
        let c = t.get_char(i);
        if !('0' <= c && c <= '9') {
            assert(!all_digits(t@));
            return DEFAULT_FONT_SIZE;
        }
        let d = ((c as u32) - 48) as u64;
        proof {
            let tk = t@.take(i + 1);
            assert(tk.drop_last() =~= t@.take(i as int));
            assert(tk.last() == t@[i as int]);
            assert(all_digits(t@.take(i as int)));
            lemma_digits_val_nonneg(t@.take(i as int));
        }
        if over {
        } else {
            let next = acc * 10 + d;
            if next > 0xFFFF_FFFF {
                over = true;
            } else {
                acc = next;
            }
        }
        i += 1;
    }
    proof {
        assert(t@.take(n as int) =~= t@);
        assert(all_digits(t@));
    }
    if over {
        DEFAULT_FONT_SIZE
    } else {
        acc as u32
    }
}

/// The (family, size) pair a single font token denotes: the text before the
/// first `=` names the family, what follows it sizes it.
pub open spec fn spec_font_token(t: Seq<char>) -> (Seq<char>, u32) {
    let toks = split_on(t, '=');
    (toks[0], if toks.len() >= 2 {
        spec_parse_size(toks[1])
    } else {
        DEFAULT_FONT_SIZE
    })
}

/// The fallback list a specification denotes before the guaranteed family is
/// considered: one entry per `;`-separated token, in order.
pub open spec fn spec_font_base(s: Seq<char>) -> Seq<(Seq<char>, u32)> {
    split_on(s, ';').map_values(|t: Seq<char>| spec_font_token(t))
}

/// Whether some entry of the list names the guaranteed fallback family.
pub open spec fn has_fallback_family(entries: Seq<(Seq<char>, u32)>) -> bool {
    exists|i: int| 0 <= i < entries.len() && entries[i].0 == "Hack"@
}

/// The full fallback list a specification denotes: the base list, with the
/// guaranteed family appended at the default size when no token named it.
pub open spec fn spec_to_font(s: Seq<char>) -> Seq<(Seq<char>, u32)> {
    let base = spec_font_base(s);
    if has_fallback_family(base) {
        base
    } else {
        base.push(("Hack"@, DEFAULT_FONT_SIZE))
    }
}

/// Law: for every font specification the parsed fallback list is non-empty
/// and holds the guaranteed fallback family — named by some token of the
/// input, or else appended at the end.
pub proof fn lemma_font_fallback_present(s: Seq<char>)
    ensures
        spec_to_font(s).len() > 0,
        has_fallback_family(spec_to_font(s)),
{
    lemma_split_on_nonempty(s, ';');
    let base = spec_font_base(s);
    if has_fallback_family(base) {
    } else {
        let full = base.push(("Hack"@, DEFAULT_FONT_SIZE));
        assert(full[full.len() - 1].0 == "Hack"@);
    }
}

/// Turning a delimited specification string into a font fallback list.
pub trait IntoFont: View<V = Seq<char>> + Sized {
    /// Parses the fallback list, as [`spec_to_font`] describes. Never fails.
    fn to_font(self) -> (r: Vec<FontEntry>)
        ensures
            r@.map_values(|e: FontEntry| e@) == spec_to_font(self@),
    ;
}

impl<'a> IntoFont for &'a str {
    fn to_font(self) -> (r: Vec<FontEntry>)
        ensures
            r@.map_values(|e: FontEntry| e@) == spec_to_font(self@),
    {
        let tokens = split_str(self, ';');
        let ghost base = spec_font_base(self@);
        proof {
            assert(base.len() == tokens.deep_view().len());
        }
        let mut result: Vec<FontEntry> = Vec::new();
        let mut has_hack = false;
        let mut i: usize = 0;
        proof {
            assert(result@.map_values(|e: FontEntry| e@) =~= base.take(0));
        }
        while i < tokens.len()
            invariant
                i <= tokens.len(),
                tokens.deep_view() == split_on(self@, ';'),
                base == spec_font_base(self@),
                base.len() == tokens@.len(),
                result@.map_values(|e: FontEntry| e@) == base.take(i as int),
                has_hack == has_fallback_family(base.take(i as int)),
            decreases tokens.len() - i,
        {
            let token = &tokens[i];
            let parts = split_str(token.as_str(), '=');
            proof {
                assert(token@ == tokens.deep_view()[i as int]);
                assert(base[i as int] == spec_font_token(token@));
                lemma_split_on_nonempty(token@, '=');
                assert(parts.deep_view()[0] == split_on(token@, '=')[0]);
                assert(parts.deep_view().len() == parts@.len());
            }
            let name = parts[0].clone();
            let size = if parts.len() >= 2 {
                proof {
                    assert(parts.deep_view()[1] == split_on(token@, '=')[1]);
                }
                parse_size(parts[1].as_str())
            } else {
                DEFAULT_FONT_SIZE
            };
            let is_hack = str_eq(name.as_str(), "Hack");
            has_hack = has_hack || is_hack;
            let entry = FontEntry { family: name, size };
            proof {
                assert(entry@ == base[i as int]);
            }
            let ghost prev = result@.map_values(|e: FontEntry| e@);
            result.push(entry);
            proof {
                assert(result@.map_values(|e: FontEntry| e@) =~= prev.push(entry@));
                assert(prev.push(entry@) =~= base.take(i + 1));
                if is_hack {
                    assert(base.take(i + 1)[i as int].0 == "Hack"@);
                    assert(has_fallback_family(base.take(i + 1)));
                } else {
                    if has_fallback_family(base.take(i as int)) {
                        let ghost w = choose|j: int|
                            0 <= j < base.take(i as int).len() && #[trigger] base.take(i as int)[j].0
                                == "Hack"@;
                        assert(base.take(i + 1)[w].0 == "Hack"@);
                    }
                    if has_fallback_family(base.take(i + 1)) {
                        let ghost w = choose|j: int|
                            0 <= j < base.take(i + 1).len() && #[trigger] base.take(i + 1)[j].0 == "Hack"@;
                        if w < i {
                            assert(base.take(i as int)[w].0 == "Hack"@);
                        } else {
                            assert(base[i as int].0 == "Hack"@);
                            assert(entry@.0 == "Hack"@);
                        }
                    }
                }
            }
            i += 1;
        }
        proof {
            assert(base.take(tokens@.len() as int) =~= base);
        }
        if !has_hack {
            let ghost prev = result@.map_values(|e: FontEntry| e@);
            let entry = FontEntry { family: String::from_str("Hack"), size: DEFAULT_FONT_SIZE };
            result.push(entry);
            proof {
                assert(result@.map_values(|e: FontEntry| e@) =~= prev.push(entry@));
            }
        }
        result
    }
}

/// The style a watermark style token denotes; anything unrecognized is the
/// regular style.
pub open spec fn spec_to_style(s: Seq<char>) -> FontStyle {
    if s == "bold"@ {
        FontStyle::Bold
    } else if s == "italic"@ {
        FontStyle::Italic
    } else if s == "bolditalic"@ {
        FontStyle::BoldItalic
    } else {
        FontStyle::Regular
    }
}

/// Turning a style token into a [`FontStyle`].
pub trait IntoFontStyle: View<V = Seq<char>> + Sized {
    /// Parses the style token, as [`spec_to_style`] describes. Never fails.
    fn to_style(self) -> (r: FontStyle)
        ensures
            r == spec_to_style(self@),
    ;
}

impl<'a> IntoFontStyle for &'a str {
    fn to_style(self) -> (r: FontStyle)
        ensures
            r == spec_to_style(self@),
    {
        if str_eq(self, "bold") {
            FontStyle::Bold
        } else if str_eq(self, "italic") {
            FontStyle::Italic
        } else if str_eq(self, "bolditalic") {
            FontStyle::BoldItalic
        } else {
            FontStyle::Regular
        }
    }
}

} // verus!
