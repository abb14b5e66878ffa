//! Output dispatch: where one rendered image goes, and the timestamped
//! filename synthesis the default destination uses.
//!
//! Paths are plain strings here; joining a directory and a filename inserts
//! a single `/` unless the directory is empty. The filename template is the
//! `strftime`-like language of bracketed tokens `[year]`, `[month]`,
//! `[day]`, `[hour]`, `[minute]` and `[second]`; every other character
//! stands for itself, and an unknown or unterminated token makes the
//! template invalid. `[year]` is zero-padded to four digits (a leading `-`
//! for years before zero), the rest to two.

use crate::config::OutputOpts;
use crate::error::Error;
use crate::text::str_eq;
use vstd::prelude::*;
use vstd::string::*;

verus! {

/// A moment of civil time, as the clock hands it out.
#[derive(Debug, Clone, Copy, PartialEq, Eq, Structural)]
pub struct Timestamp {
    pub year: i32,
    pub month: u8,
    pub day: u8,
    pub hour: u8,
    pub minute: u8,
    pub second: u8,
}

/// The component ranges every clock reading satisfies.
pub open spec fn ts_wf(ts: Timestamp) -> bool {
    &&& -9999 <= ts.year <= 9999
    &&& 1 <= ts.month <= 12
    &&& 1 <= ts.day <= 31
    &&& ts.hour <= 23
    &&& ts.minute <= 59
    &&& ts.second <= 59
}

/// Reads the clock.
///
/// Relies on `time::OffsetDateTime::now_utc` and its component accessors:
/// the crate documents month as 1..=12, day as 1..=31, hour below 24,
/// minute and second below 60, and the year within ±9999 under its default
/// date range. Nothing more can be promised of a clock reading.
#[verifier::external_body]
pub(crate) fn now_timestamp() -> (ts: Timestamp)
    ensures
        ts_wf(ts),
{
    let now = time::OffsetDateTime::now_utc();
    Timestamp {
        year: now.year(),
        month: now.month() as u8,
        day: now.day(),
        hour: now.hour(),
        minute: now.minute(),
        second: now.second(),
    }
}

/// The one-character string a decimal digit writes as.
pub open spec fn spec_digit(d: int) -> Seq<char> {
    if d == 0 {
        "0"@
    } else if d == 1 {
        "1"@
    } else if d == 2 {
        "2"@
    } else if d == 3 {
        "3"@
    } else if d == 4 {
        "4"@
    } else if d == 5 {
        "5"@
    } else if d == 6 {
        "6"@
    } else if d == 7 {
        "7"@
    } else if d == 8 {
        "8"@
    } else {
        "9"@
    }
}

/// The decimal writing of a non-negative number.
pub open spec fn spec_dec(v: int) -> Seq<char>
    decreases v,
{
    if v < 10 {
        spec_digit(v)
    } else {
        spec_dec(v / 10) + spec_digit(v % 10)
    }
}

/// The decimal writing of `v`, zero-padded to two digits.
pub open spec fn spec_pad2(v: int) -> Seq<char> {
    if v < 10 {
        "0"@ + spec_dec(v)
    } else {
        spec_dec(v)
    }
}

/// The decimal writing of `v`, zero-padded to four digits.
pub open spec fn spec_pad4(v: int) -> Seq<char> {
    if v < 10 {
        "000"@ + spec_dec(v)
    } else if v < 100 {
        "00"@ + spec_dec(v)
    } else if v < 1000 {
        "0"@ + spec_dec(v)
    } else {
        spec_dec(v)
    }
}

/// The writing of a year: four zero-padded digits, signed when negative.
pub open spec fn spec_year_str(y: int) -> Seq<char> {
    if y < 0 {
        "-"@ + spec_pad4(-y)
    } else {
        spec_pad4(y)
    }
}

/// Whether `t` begins with `tok`.
pub open spec fn spec_starts(t: Seq<char>, tok: Seq<char>) -> bool {
    tok.len() <= t.len() && t.subrange(0, tok.len() as int) == tok
}

/// The text a filename template denotes for one timestamp, when the
/// template is valid.
pub open spec fn spec_format_template(t: Seq<char>, ts: Timestamp) -> Option<Seq<char>>
    decreases t.len(),
{
    if t.len() == 0 {
        Some(Seq::<char>::empty())
    } else if t[0] != '[' {
        match spec_format_template(t.drop_first(), ts) {
            Some(r) => Some(seq![t[0]] + r),
            None => None,
        }
    } else if t.len() >= 6 && t.subrange(0, 6) == "[year]"@ {
        match spec_format_template(t.skip(6), ts) {
            Some(r) => Some(spec_year_str(ts.year as int) + r),
            None => None,
        }
    } else if t.len() >= 7 && t.subrange(0, 7) == "[month]"@ {
        match spec_format_template(t.skip(7), ts) {
            Some(r) => Some(spec_pad2(ts.month as int) + r),
            None => None,
        }
    } else if t.len() >= 5 && t.subrange(0, 5) == "[day]"@ {
        match spec_format_template(t.skip(5), ts) {
            Some(r) => Some(spec_pad2(ts.day as int) + r),
            None => None,
        }
    } else if t.len() >= 6 && t.subrange(0, 6) == "[hour]"@ {
        match spec_format_template(t.skip(6), ts) {
            Some(r) => Some(spec_pad2(ts.hour as int) + r),
            None => None,
        }
    } else if t.len() >= 8 && t.subrange(0, 8) == "[minute]"@ {
        match spec_format_template(t.skip(8), ts) {
            Some(r) => Some(spec_pad2(ts.minute as int) + r),
            None => None,
        }
    } else if t.len() >= 8 && t.subrange(0, 8) == "[second]"@ {
        match spec_format_template(t.skip(8), ts) {
            Some(r) => Some(spec_pad2(ts.second as int) + r),
            None => None,
        }
    } else {
        None
    }
}

/// One decimal digit, as [`spec_digit`] describes.
fn digit_str(d: u64) -> (r: &'static str)
    requires
        d < 10,
    ensures
        r@ == spec_digit(d as int),
{
    if d == 0 {
        "0"
    } else if d == 1 {
        "1"
    } else if d == 2 {
        "2"
    } else if d == 3 {
        "3"
    } else if d == 4 {
        "4"
    } else if d == 5 {
        "5"
    } else if d == 6 {
        "6"
    } else if d == 7 {
        "7"
    } else if d == 8 {
        "8"
    } else {
        "9"
    }
}

/// Writes a number in decimal, as [`spec_dec`] describes.
fn fmt_dec(v: u64) -> (s: String)
    ensures
        s@ == spec_dec(v as int),
    decreases v,
{
    if v < 10 {
        String::from_str(digit_str(v))
    } else {
        proof {
            assert((v as int) / 10 == (v / 10) as int);
            assert((v as int) % 10 == (v % 10) as int);
        }
        fmt_dec(v / 10).concat(digit_str(v % 10))
    }
}

/// Writes a number zero-padded to two digits, as [`spec_pad2`] describes.
fn fmt_pad2(v: u64) -> (s: String)
    ensures
        s@ == spec_pad2(v as int),
{
    if v < 10 {
        String::from_str("0").concat(fmt_dec(v).as_str())
    } else {
        fmt_dec(v)
    }
}

/// Writes a number zero-padded to four digits, as [`spec_pad4`] describes.
fn fmt_pad4(v: u64) -> (s: String)
    ensures
        s@ == spec_pad4(v as int),
{
    if v < 10 {
        String::from_str("000").concat(fmt_dec(v).as_str())
    } else if v < 100 {
        String::from_str("00").concat(fmt_dec(v).as_str())
    } else if v < 1000 {
        String::from_str("0").concat(fmt_dec(v).as_str())
    } else {
        fmt_dec(v)
    }
}

/// Writes a year, as [`spec_year_str`] describes.
fn fmt_year(y: i32) -> (s: String)
    requires
        -9999 <= y <= 9999,
    ensures
        s@ == spec_year_str(y as int),
{
    if y < 0 {
        String::from_str("-").concat(fmt_pad4((-y) as u64).as_str())
    } else {
        fmt_pad4(y as u64)
    }
}

/// Whether `tok` stands at position `i` of `t`.
fn token_at(t: &str, i: usize, tok: &str) -> (r: bool)
    requires
        i <= t@.len(),
    ensures
        r == spec_starts(t@.skip(i as int), tok@),
{
    let n = t.unicode_len();
    let m = tok.unicode_len();
    if m > n - i {
        return false;
    }
    let sub = t.substring_char(i, i + m);
    let r = str_eq(sub, tok);
    proof {
        assert(sub@ =~= t@.skip(i as int).subrange(0, tok@.len() as int));
    }
    r
}

/// Renders the filename template for one timestamp. Succeeds with exactly
/// the text the template denotes, and fails with `InvalidTemplate` carrying
/// the template if and only if the template is invalid.
#[verifier::loop_isolation(false)]
pub fn format_timestamp(template: &str, ts: Timestamp) -> (r: Result<String, Error>)
    requires
        ts_wf(ts),
    ensures
        match r {
            Ok(s) => spec_format_template(template@, ts) == Some(s@),
            Err(e) => {
                &&& spec_format_template(template@, ts) is None
                &&& e matches Error::InvalidTemplate(x) && x@ == template@
            },
        },
{
    let ghost whole = spec_format_template(template@, ts);
    proof {
        reveal_strlit("[year]");
        reveal_strlit("[month]");
        reveal_strlit("[day]");
        reveal_strlit("[hour]");
        reveal_strlit("[minute]");
        reveal_strlit("[second]");
    }
    let n = template.unicode_len();
    let mut acc = String::new();
    let mut i: usize = 0;
    proof {
        assert(template@.skip(0) =~= template@);
        if whole is Some {
            assert(Seq::<char>::empty() + whole->0 =~= whole->0);
        }
    }
    while i < n
        invariant
            i <= n,
            n == template@.len(),
            whole == (match spec_format_template(template@.skip(i as int), ts) {
                Some(r) => Some(acc@ + r),
                None => None::<Seq<char>>,
            }),
        decreases n - i,
    {
        let ghost rest = template@.skip(i as int);
        proof {
            assert(rest[0] == template@[i as int]);
            assert(rest.drop_first() =~= template@.skip(i as int + 1));
        }
        let c = template.get_char(i);
        if c != '[' {
            let piece = template.substring_char(i, i + 1);
            proof {
                assert(piece@ =~= seq![template@[i as int]]);
            }
            let ghost prev = acc@;
            acc = acc.concat(piece);
            proof {
                if spec_format_template(template@.skip(i as int + 1), ts) is Some {
                    let r2 = spec_format_template(template@.skip(i as int + 1), ts)->0;
                    assert(prev + (seq![rest[0]] + r2) =~= (prev + seq![rest[0]]) + r2);
                }
            }
            i += 1;
        } else if token_at(template, i, "[year]") {
            proof {
                assert(rest.skip(6) =~= template@.skip(i as int + 6));
            }
            let ghost prev = acc@;
            acc = acc.concat(fmt_year(ts.year).as_str());
            proof {
                if spec_format_template(template@.skip(i as int + 6), ts) is Some {
                    let r2 = spec_format_template(template@.skip(i as int + 6), ts)->0;
                    assert(prev + (spec_year_str(ts.year as int) + r2) =~= (prev + spec_year_str(
                        ts.year as int,
                    )) + r2);
                }
                assert("[year]"@.len() == 6) by {
                    reveal_strlit("[year]");
                }
            }
            i += 6;
        } else if token_at(template, i, "[month]") {
            proof {
                assert(rest.skip(7) =~= template@.skip(i as int + 7));
            }
            let ghost prev = acc@;
            acc = acc.concat(fmt_pad2(ts.month as u64).as_str());
            proof {
                if spec_format_template(template@.skip(i as int + 7), ts) is Some {
                    let r2 = spec_format_template(template@.skip(i as int + 7), ts)->0;
                    assert(prev + (spec_pad2(ts.month as int) + r2) =~= (prev + spec_pad2(
                        ts.month as int,
                    )) + r2);
                }
                assert("[month]"@.len() == 7) by {
                    reveal_strlit("[month]");
                }
            }
            i += 7;
        } else if token_at(template, i, "[day]") {
            proof {
                assert(rest.skip(5) =~= template@.skip(i as int + 5));
            }
            let ghost prev = acc@;
            acc = acc.concat(fmt_pad2(ts.day as u64).as_str());
            proof {
                if spec_format_template(template@.skip(i as int + 5), ts) is Some {
                    let r2 = spec_format_template(template@.skip(i as int + 5), ts)->0;
                    assert(prev + (spec_pad2(ts.day as int) + r2) =~= (prev + spec_pad2(
                        ts.day as int,
                    )) + r2);
                }
                assert("[day]"@.len() == 5) by {
                    reveal_strlit("[day]");
                }
            }
            i += 5;
        } else if token_at(template, i, "[hour]") {
            proof {
                assert(rest.skip(6) =~= template@.skip(i as int + 6));
            }
            let ghost prev = acc@;
            acc = acc.concat(fmt_pad2(ts.hour as u64).as_str());
            proof {
                if spec_format_template(template@.skip(i as int + 6), ts) is Some {
                    let r2 = spec_format_template(template@.skip(i as int + 6), ts)->0;
                    assert(prev + (spec_pad2(ts.hour as int) + r2) =~= (prev + spec_pad2(
                        ts.hour as int,
                    )) + r2);
                }
                assert("[hour]"@.len() == 6) by {
                    reveal_strlit("[hour]");
                }
            }
            i += 6;
        } else if token_at(template, i, "[minute]") {
            proof {
                assert(rest.skip(8) =~= template@.skip(i as int + 8));
            }
            let ghost prev = acc@;
            acc = acc.concat(fmt_pad2(ts.minute as u64).as_str());
            proof {
                if spec_format_template(template@.skip(i as int + 8), ts) is Some {
                    let r2 = spec_format_template(template@.skip(i as int + 8), ts)->0;
                    assert(prev + (spec_pad2(ts.minute as int) + r2) =~= (prev + spec_pad2(
                        ts.minute as int,
                    )) + r2);
                }
                assert("[minute]"@.len() == 8) by {
                    reveal_strlit("[minute]");
                }
            }
            i += 8;
        } else if token_at(template, i, "[second]") {
            proof {
                assert(rest.skip(8) =~= template@.skip(i as int + 8));
            }
            let ghost prev = acc@;
            acc = acc.concat(fmt_pad2(ts.second as u64).as_str());
            proof {
                if spec_format_template(template@.skip(i as int + 8), ts) is Some {
                    let r2 = spec_format_template(template@.skip(i as int + 8), ts)->0;
                    assert(prev + (spec_pad2(ts.second as int) + r2) =~= (prev + spec_pad2(
                        ts.second as int,
                    )) + r2);
                }
                assert("[second]"@.len() == 8) by {
                    reveal_strlit("[second]");
                }
            }
            i += 8;
        } else {
            return Err(Error::InvalidTemplate(String::from_str(template)));
        }
    }
    proof {
        assert(template@.skip(n as int) =~= Seq::<char>::empty());
        assert(acc@ + Seq::<char>::empty() =~= acc@);
    }
    Ok(acc)
}

/// Where one rendered image is to go. Exactly one variant is active per
/// invocation.
#[derive(Debug, Clone)]
pub enum DestinationSpec {
    /// Encode and write to this explicit path.
    ExplicitFile(String),
    /// Hand the image to the platform clipboard.
    Clipboard,
    /// Write under a directory, named by a timestamp template.
    TimestampedPath { dir: String, template: String },
}

/// The default filename template of the timestamped destination.
pub open spec fn spec_default_template() -> Seq<char> {
    "silicon_[year][month][day]_[hour][minute][second].png"@
}

/// The destination the output options denote, in the documented priority
/// order: an explicit file first, then an explicit clipboard request, then
/// the timestamped default.
pub fn destination_of(out: &OutputOpts) -> (d: DestinationSpec)
    ensures
        match out.file {
            Some(f) => d matches DestinationSpec::ExplicitFile(p) && p@ == f@,
            None => {
                if (out.clipboard matches Some(true)) {
                    d is Clipboard
                } else {
                    d matches DestinationSpec::TimestampedPath { dir, template } && dir@ == (
                    match out.path {
                        Some(p) => p@,
                        None => Seq::<char>::empty(),
                    }) && template@ == (match out.format {
                        Some(f) => f@,
                        None => spec_default_template(),
                    })
                }
            },
        },
{
    match &out.file {
        Some(f) => DestinationSpec::ExplicitFile(f.clone()),
        None => {
            let clip = match out.clipboard {
                Some(b) => b,
                None => false,
            };
            if clip {
                DestinationSpec::Clipboard
            } else {
                let dir = match &out.path {
                    Some(p) => p.clone(),
                    None => String::new(),
                };
                let template = match &out.format {
                    Some(f) => f.clone(),
                    None => String::from_str(
                        "silicon_[year][month][day]_[hour][minute][second].png",
                    ),
                };
                DestinationSpec::TimestampedPath { dir, template }
            }
        },
    }
}

/// The one concrete action dispatch takes for an image.
#[derive(Debug, Clone)]
pub enum DispatchPlan {
    /// Write the encoded image to this path.
    WriteFile { path: String },
    /// Hand the image to the clipboard adapter.
    CopyToClipboard,
    /// Write the encoded image to this path, synthesized from the template;
    /// the filename alone is reported to the user.
    WriteTimestamped { path: String, file: String },
}

/// A directory joined with a filename: a single `/` between them, none when
/// the directory is empty.
pub open spec fn spec_join_path(dir: Seq<char>, file: Seq<char>) -> Seq<char> {
    if dir.len() == 0 {
        file
    } else {
        dir + "/"@ + file
    }
}

/// Turns a destination into the one action dispatch takes, synthesizing the
/// timestamped filename from the clock reading. Exactly one plan variant
/// answers each destination variant; only an invalid template fails.
pub fn select_destination(dest: &DestinationSpec, ts: Timestamp) -> (r: Result<DispatchPlan, Error>)
    requires
        ts_wf(ts),
    ensures
        match *dest {
            DestinationSpec::ExplicitFile(ref f) => r matches Ok(p) && p matches
                DispatchPlan::WriteFile { path } && path@ == f@,
            DestinationSpec::Clipboard => r matches Ok(p) && p is CopyToClipboard,
            DestinationSpec::TimestampedPath { ref dir, ref template } => {
                match spec_format_template(template@, ts) {
                    Some(name) => r matches Ok(p) && p matches DispatchPlan::WriteTimestamped {
                        path,
                        file,
                    } && file@ == name && path@ == spec_join_path(dir@, name),
                    None => r matches Err(e) && e matches Error::InvalidTemplate(x) && x@
                        == template@,
                }
            },
        },
{
    match dest {
        DestinationSpec::ExplicitFile(f) => Ok(DispatchPlan::WriteFile { path: f.clone() }),
        DestinationSpec::Clipboard => Ok(DispatchPlan::CopyToClipboard),
        DestinationSpec::TimestampedPath { dir, template } => {
            let file = match format_timestamp(template.as_str(), ts) {
                Ok(s) => s,
                Err(e) => {
                    return Err(e);
                },
            };
            let path = if dir.unicode_len() == 0 {
                file.clone()
            } else {
                dir.clone().concat("/").concat(file.as_str())
            };
            Ok(DispatchPlan::WriteTimestamped { path, file })
        },
    }
}

/// The user-facing status line each successful dispatch reports.
pub fn plan_message(plan: &DispatchPlan) -> (m: String)
    ensures
        match *plan {
            DispatchPlan::WriteFile { ref path } => m@ == "Image saved to "@ + path@,
            DispatchPlan::CopyToClipboard => m@ == "Image saved to clipboard"@,
            DispatchPlan::WriteTimestamped { path: _, ref file } => m@ == "Image saved to "@
                + file@,
        },
{
    match plan {
        DispatchPlan::WriteFile { path } => String::from_str("Image saved to ").concat(
            path.as_str(),
        ),
        DispatchPlan::CopyToClipboard => String::from_str("Image saved to clipboard"),
        DispatchPlan::WriteTimestamped { path: _, file } => String::from_str(
            "Image saved to ",
        ).concat(file.as_str()),
    }
}

/// Law: destination selection is total and mutually exclusive — every
/// `DestinationSpec` value falls under exactly one of the three dispatch
/// branches.
pub proof fn lemma_destination_exclusive(d: DestinationSpec)
    ensures
        (d is ExplicitFile) || (d is Clipboard) || (d is TimestampedPath),
        d is ExplicitFile ==> !(d is Clipboard) && !(d is TimestampedPath),
        d is Clipboard ==> !(d is ExplicitFile) && !(d is TimestampedPath),
        d is TimestampedPath ==> !(d is ExplicitFile) && !(d is Clipboard),
{
}

} // verus!
