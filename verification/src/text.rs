//! Assembling the captured span of text, and the string utilities the
//! parsers share: separator splitting, indentation gobbling, joining.

use vstd::prelude::*;
use vstd::string::*;

verus! {

/// Index of the first character of `s` that is not a space, if any.
pub open spec fn first_non_space(s: Seq<char>) -> Option<int>
    decreases s.len(),
{
    if s.len() == 0 {
        None
    } else if s[0] != ' ' {
        Some(0int)
    } else {
        match first_non_space(s.drop_first()) {
            Some(i) => Some(i + 1),
            None => None,
        }
    }
}

/// The indentation length gobbling strips: the index of the first non-space
/// character, or `0` when the line is all spaces or empty.
pub open spec fn spec_globble_len(s: Seq<char>) -> int {
    match first_non_space(s) {
        Some(i) => i,
        None => 0,
    }
}

proof fn lemma_first_non_space_found(s: Seq<char>, i: int)
    requires
        0 <= i < s.len(),
        forall|j: int| 0 <= j < i ==> s[j] == ' ',
        s[i] != ' ',
    ensures
        first_non_space(s) == Some(i),
    decreases i,
{
    if i == 0 {
    } else {
        assert(s[0] == ' ');
        lemma_first_non_space_found(s.drop_first(), i - 1);
    }
}

proof fn lemma_first_non_space_none(s: Seq<char>)
    requires
        forall|j: int| 0 <= j < s.len() ==> s[j] == ' ',
    ensures
        first_non_space(s) is None,
    decreases s.len(),
{
    if s.len() == 0 {
    } else {
        lemma_first_non_space_none(s.drop_first());
    }
}

/// Length of the indentation that gobbling strips from a line: the index of
/// the first character that is not a space, or `0` when every character is a
/// space (or the line is empty).
pub fn get_globble_len(line: &str) -> (r: usize)
    ensures
        r == spec_globble_len(line@),
{
    let n = line.unicode_len();
    let mut i: usize = 0;
    while i < n
        invariant
            n == line@.len(),
            i <= n,
            forall|j: int| 0 <= j < i ==> line@[j] == ' ',
        decreases n - i,
    {
        if line.get_char(i) != ' ' {
            proof {
                lemma_first_non_space_found(line@, i as int);
            }
            return i;
        }
        i += 1;
    }
    proof {
        lemma_first_non_space_none(line@);
    }
    0
}

/// The span of buffer lines one capture fetches: the whole buffer when the
/// emphasis selection is on (the render then marks the captured span), and
/// exactly the requested span otherwise. `None` as the upper bound means
/// the buffer's last line.
pub fn fetch_range(highlight_selection: bool, start: usize, end: usize) -> (r: (
    usize,
    Option<usize>,
))
    ensures
        highlight_selection ==> r.0 == 1 && r.1 is None,
        !highlight_selection ==> r.0 == start && r.1 == Some(end),
{
    if highlight_selection {
        (1, None)
    } else {
        (start, Some(end))
    }
}

/// Character-wise string equality.
pub fn str_eq(a: &str, b: &str) -> (r: bool)
    ensures
        r == (a@ == b@),
{
    let na = a.unicode_len();
    let nb = b.unicode_len();
    if na != nb {
        return false;
    }
    let mut i: usize = 0;
    while i < na
        invariant
            i <= na,
            na == a@.len(),
            nb == b@.len(),
            na == nb,
            forall|j: int| 0 <= j < i ==> a@[j] == b@[j],
        decreases na - i,
    {
        if a.get_char(i) != b.get_char(i) {
            return false;
        }
        i += 1;
    }
    proof {
        assert(a@ =~= b@);
    }
    true
}

/// The segments of `s` between occurrences of `sep`. Always non-empty; a
/// separator at either end or two adjacent separators yield empty segments,
/// as the splitting the parsers rely on does.
pub open spec fn split_on(s: Seq<char>, sep: char) -> Seq<Seq<char>>
    decreases s.len(),
{
    if s.len() == 0 {
        seq![Seq::<char>::empty()]
    } else if s[0] == sep {
        seq![Seq::<char>::empty()].add(split_on(s.drop_first(), sep))
    } else {
        let r = split_on(s.drop_first(), sep);
        seq![seq![s[0]].add(r[0])].add(r.skip(1))
    }
}

pub proof fn lemma_split_on_nonempty(s: Seq<char>, sep: char)
    ensures
        split_on(s, sep).len() >= 1,
    decreases s.len(),
{
    if s.len() == 0 {
    } else if s[0] == sep {
    } else {
        lemma_split_on_nonempty(s.drop_first(), sep);
    }
}

/// Splitting a string that holds no separator yields that one segment.
pub proof fn lemma_split_on_no_sep(s: Seq<char>, sep: char)
    requires
        forall|j: int| 0 <= j < s.len() ==> s[j] != sep,
    ensures
        split_on(s, sep) == seq![s],
    decreases s.len(),
{
    if s.len() == 0 {
        assert(Seq::<char>::empty() =~= s);
    } else {
        lemma_split_on_no_sep(s.drop_first(), sep);
        let r = split_on(s.drop_first(), sep);
        assert(r[0] == s.drop_first());
        assert(seq![s[0]].add(s.drop_first()) =~= s);
        assert(r.skip(1) =~= Seq::<Seq<char>>::empty());
        assert(seq![s].add(Seq::<Seq<char>>::empty()) =~= seq![s]);
    }
}

/// Splitting decomposes at the first separator: the segment before it, then
/// the splitting of what follows it.
pub proof fn lemma_split_on_first_sep(s: Seq<char>, sep: char, k: int)
    requires
        0 <= k < s.len(),
        forall|j: int| 0 <= j < k ==> s[j] != sep,
        s[k] == sep,
    ensures
        split_on(s, sep) == seq![s.subrange(0, k)].add(
            split_on(s.subrange(k + 1, s.len() as int), sep),
        ),
    decreases k,
{
    if k == 0 {
        assert(s.subrange(0, 0) =~= Seq::<char>::empty());
        assert(s.subrange(1, s.len() as int) =~= s.drop_first());
    } else {
        let d = s.drop_first();
        assert(d[k - 1] == s[k]);
        lemma_split_on_first_sep(d, sep, k - 1);
        let r = split_on(d, sep);
        assert(d.subrange(0, k - 1) =~= s.subrange(1, k));
        assert(d.subrange(k, d.len() as int) =~= s.subrange(k + 1, s.len() as int));
        let tail_split = split_on(s.subrange(k + 1, s.len() as int), sep);
        assert(r == seq![s.subrange(1, k)].add(tail_split));
        assert(r[0] == s.subrange(1, k));
        assert(seq![s[0]].add(s.subrange(1, k)) =~= s.subrange(0, k));
        assert(r.skip(1) =~= tail_split);
        assert(seq![seq![s[0]].add(r[0])].add(r.skip(1)) =~= seq![s.subrange(0, k)].add(
            tail_split,
        ));
    }
}

/// Splits `s` at every occurrence of `sep`, as [`split_on`] describes.
pub fn split_str(s: &str, sep: char) -> (r: Vec<String>)
    ensures
        r.deep_view() == split_on(s@, sep),
{
    let n = s.unicode_len();
    let mut parts: Vec<String> = Vec::new();
    let mut start: usize = 0;
    let mut i: usize = 0;
    proof {
        assert(parts.deep_view() =~= Seq::<Seq<char>>::empty());
        assert(s@.subrange(0, n as int) =~= s@);
        assert(Seq::<Seq<char>>::empty().add(split_on(s@, sep)) =~= split_on(s@, sep));
    }
    while i < n
        invariant
            start <= i <= n,
            n == s@.len(),
            forall|j: int| start <= j < i ==> s@[j] != sep,
            split_on(s@, sep) == parts.deep_view().add(
                split_on(s@.subrange(start as int, n as int), sep),
            ),
        decreases n - i,
    {
        if s.get_char(i) == sep {
            let seg = s.substring_char(start, i).to_owned();
            proof {
                let suffix = s@.subrange(start as int, n as int);
                assert(suffix[i - start] == s@[i as int]);
                assert(forall|j: int|
                    0 <= j < i - start ==> #[trigger] suffix[j] == s@[start + j] && s@[start + j]
                        != sep);
                lemma_split_on_first_sep(suffix, sep, i - start);
                assert(suffix.subrange(0, i - start) =~= s@.subrange(start as int, i as int));
                assert(suffix.subrange(i - start + 1, suffix.len() as int) =~= s@.subrange(
                    i as int + 1,
                    n as int,
                ));
            }
            let ghost old_parts = parts.deep_view();
            parts.push(seg);
            proof {
                assert(parts.deep_view() =~= old_parts.push(seg@));
                assert(old_parts.push(seg@) =~= old_parts.add(seq![seg@]));
                assert(parts.deep_view().add(
                    split_on(s@.subrange(i as int + 1, n as int), sep),
                ) =~= old_parts.add(
                    seq![seg@].add(split_on(s@.subrange(i as int + 1, n as int), sep)),
                ));
            }
            start = i + 1;
            i += 1;
        } else {
            i += 1;
        }
    }
    let seg = s.substring_char(start, n).to_owned();
    proof {
        let suffix = s@.subrange(start as int, n as int);
        assert(forall|j: int|
            0 <= j < suffix.len() ==> #[trigger] suffix[j] == s@[start + j] && s@[start + j]
                != sep);
        lemma_split_on_no_sep(suffix, sep);
    }
    let ghost old_parts = parts.deep_view();
    parts.push(seg);
    proof {
        assert(parts.deep_view() =~= old_parts.push(seg@));
        assert(old_parts.push(seg@) =~= old_parts.add(seq![seg@]));
    }
    parts
}

/// A line with the first `k` characters stripped; a line shorter than `k`
/// strips to nothing.
pub open spec fn spec_gobbled_line(s: Seq<char>, k: int) -> Seq<char> {
    if 0 <= k <= s.len() {
        s.skip(k)
    } else {
        Seq::empty()
    }
}

/// The captured lines, each stripped of `k` characters and ended with a
/// newline, in order.
pub open spec fn spec_join_gobbled(lines: Seq<Seq<char>>, k: int) -> Seq<char>
    decreases lines.len(),
{
    if lines.len() == 0 {
        Seq::empty()
    } else {
        spec_join_gobbled(lines.drop_last(), k) + spec_gobbled_line(lines.last(), k) + "\n"@
    }
}

/// What assembling the captured span yields: every line joined with a
/// trailing newline, gobbled by the first line's indentation when asked.
pub open spec fn spec_get_lines(lines: Seq<Seq<char>>, gobble: bool) -> Seq<char> {
    let k = if gobble && lines.len() > 0 {
        spec_globble_len(lines[0])
    } else {
        0
    };
    spec_join_gobbled(lines, k)
}

/// Assembles the captured lines into the text handed to highlighting: each
/// line gets a trailing newline; with `gobble` on, the indentation of the
/// first line is stripped from every line.
pub fn get_lines(lines: &Vec<String>, gobble: bool) -> (r: String)
    ensures
        r@ == spec_get_lines(lines.deep_view(), gobble),
{
    let k: usize = if gobble && lines.len() > 0 {
        get_globble_len(lines[0].as_str())
    } else {
        0
    };
    let ghost lv = lines.deep_view();
    let mut acc = String::new();
    let mut i: usize = 0;
    while i < lines.len()
        invariant
            i <= lines.len(),
            lv == lines.deep_view(),
            lv.len() == lines@.len(),
            forall|j: int| 0 <= j < lv.len() ==> lv[j] == #[trigger] lines@[j]@,
            acc@ == spec_join_gobbled(lv.take(i as int), k as int),
        decreases lines.len() - i,
    {
        let line = &lines[i];
        let n = line.as_str().unicode_len();
        let stripped = if k <= n {
            line.as_str().substring_char(k, n)
        } else {
            ""
        };
        proof {
            if k <= n {
                assert(stripped@ =~= spec_gobbled_line(line@, k as int));
            } else {
                reveal_strlit("");
                assert(stripped@ =~= spec_gobbled_line(line@, k as int));
            }
        }
        acc = acc.concat(stripped).concat("\n");
        proof {
            let t = lv.take(i + 1);
            assert(t.drop_last() =~= lv.take(i as int));
            assert(t.last() == lv[i as int]);
        }
        i += 1;
    }
    proof {
        assert(lv.take(lv.len() as int) =~= lv);
    }
    acc
}

} // verus!
