//! File-list handling: the walk filter, the line-oriented text format with
//! its round trip, and the sorted union that list creation writes.
use vstd::prelude::*;
use crate::util;
use crate::util::FileType;

verus! {

/// Whether a walked entry belongs in the file list: regular files and
/// symlinks, minus dot paths when they are ignored.
pub fn init_flist_filter(f: &str, t: FileType, ignore_dot: bool) -> (r: bool)
    ensures
        r == ((t is Reg || t is Symlink) && !(ignore_dot && util::spec_is_dot_path(f@))),
{
    if ignore_dot && !t.is_dir() && util::is_dot_path(f) {
        return false;
    }
    t.is_reg() || t.is_symlink()
}

/// The index of the first newline, or the length when there is none.
pub open spec fn spec_first_nl(s: Seq<char>) -> nat
    decreases s.len(),
{
    if s.len() == 0 {
        0
    } else if s[0] == '\n' {
        0
    } else {
        1 + spec_first_nl(s.skip(1))
    }
}

/// `spec_first_nl` finds the leftmost newline.
pub proof fn lemma_first_nl(s: Seq<char>)
    ensures
        spec_first_nl(s) <= s.len(),
        spec_first_nl(s) < s.len() ==> s[spec_first_nl(s) as int] == '\n',
        forall|j: int| 0 <= j < spec_first_nl(s) ==> s[j] != '\n',
    decreases s.len(),
{
    if s.len() == 0 {
    } else if s[0] == '\n' {
    } else {
        lemma_first_nl(s.skip(1));
        assert forall|j: int| 0 <= j < spec_first_nl(s) implies s[j] != '\n' by {
            if j > 0 {
                assert(s.skip(1)[j - 1] == s[j]);
            }
        }
    }
}

/// One line with a trailing carriage return removed, as the line reader
/// strips it.
pub open spec fn spec_strip_cr(l: Seq<char>) -> Seq<char> {
    if l.len() > 0 && l[l.len() - 1] == '\r' {
        l.drop_last()
    } else {
        l
    }
}

/// The lines of a text, split at newlines, each without a trailing
/// carriage return; a trailing newline ends the last line rather than
/// opening an empty one.
pub open spec fn spec_parse_lines(s: Seq<char>) -> Seq<Seq<char>>
    decreases s.len(),
{
    if s.len() == 0 {
        Seq::empty()
    } else {
        let i = spec_first_nl(s) as int;
        if i >= s.len() {
            seq![spec_strip_cr(s)]
        } else {
            seq![spec_strip_cr(s.take(i))] + spec_parse_lines(s.skip(i + 1))
        }
    }
}

/// The text of the lines, each closed by a newline.
pub open spec fn spec_serialize_lines(l: Seq<Seq<char>>) -> Seq<char>
    decreases l.len(),
{
    if l.len() == 0 {
        Seq::empty()
    } else {
        l.first() + seq!['\n'] + spec_serialize_lines(l.drop_first())
    }
}

/// Splits a loaded file-list text into its lines.
pub fn parse_flist(content: &str) -> (r: Vec<String>)
    ensures
        r.deep_view() == spec_parse_lines(content@),
{
    let n = content.unicode_len();
    let mut out: Vec<String> = Vec::new();
    let mut start: usize = 0;
    proof {
        assert(content@.skip(0) =~= content@);
        assert(out.deep_view() =~= Seq::<Seq<char>>::empty());
        assert(out.deep_view() + spec_parse_lines(content@) =~= spec_parse_lines(content@));
    }
    while start < n
        invariant
            0 <= start <= n,
            n == content@.len(),
            spec_parse_lines(content@) == out.deep_view() + spec_parse_lines(
                content@.skip(start as int),
            ),
        decreases n - start,
    {
        let ghost rest = content@.skip(start as int);
        let mut j: usize = start;
        while j < n && content.get_char(j) != '\n'
            invariant
                start <= j <= n,
                n == content@.len(),
                forall|m: int| start <= m < j ==> content@[m] != '\n',
            decreases n - j,
        {
            j += 1;
        }
        proof {
            lemma_first_nl(rest);
            let fi = spec_first_nl(rest) as int;
            assert(forall|m: int| 0 <= m < rest.len() ==> rest[m] == content@[start + m]);
            if fi < j - start {
                assert(content@[start + fi] == '\n');
                assert(false);
            }
            if fi > j - start {
                if j < n {
                    assert(rest[j - start] == '\n');
                    assert(false);
                } else {
                    assert(fi <= rest.len());
                    assert(false);
                }
            }
            assert(fi == j - start);
        }
        // the line is content[start..j], minus a trailing '\r'
        let line = if j > start && content.get_char(j - 1) == '\r' {
            content.substring_char(start, j - 1)
        } else {
            content.substring_char(start, j)
        };
        let ghost pre = out.deep_view();
        out.push(String::from_str(line));
        proof {
            assert(out.deep_view() =~= pre.push(line@));
            let fi = spec_first_nl(rest) as int;
            if j < n {
                assert(line@ =~= spec_strip_cr(rest.take(fi)));
                assert(content@.skip(j + 1) =~= rest.skip(fi + 1));
                assert(spec_parse_lines(rest) =~= seq![spec_strip_cr(rest.take(fi))]
                    + spec_parse_lines(rest.skip(fi + 1)));
                assert(out.deep_view() + spec_parse_lines(content@.skip(j + 1)) =~= pre
                    + spec_parse_lines(rest));
            } else {
                assert(rest.take(fi) =~= rest);
                assert(line@ =~= spec_strip_cr(rest));
                assert(spec_parse_lines(rest) =~= seq![spec_strip_cr(rest)]);
                assert(content@.skip(n as int) =~= Seq::<char>::empty());
                assert(out.deep_view() + spec_parse_lines(content@.skip(n as int)) =~= pre
                    + spec_parse_lines(rest));
            }
        }
        if j < n {
            start = j + 1;
        } else {
            start = n;
        }
    }
    proof {
        assert(content@.skip(n as int) =~= Seq::<char>::empty());
        assert(out.deep_view() + Seq::<Seq<char>>::empty() =~= out.deep_view());
    }
    out
}

/// Renders the lines as the file-list text, one line per entry, each
/// closed by a newline.
pub fn serialize_flist(l: &Vec<String>) -> (r: String)
    ensures
        r@ == spec_serialize_lines(l.deep_view()),
{
    proof {
        reveal_strlit("\n");
    }
    let mut s = String::new();
    let mut i: usize = 0;
    proof {
        assert(l.deep_view().skip(0) =~= l.deep_view());
    }
    while i < l.len()
        invariant
            0 <= i <= l@.len(),
            l.deep_view().len() == l@.len(),
            spec_serialize_lines(l.deep_view()) == s@ + spec_serialize_lines(
                l.deep_view().skip(i as int),
            ),
        decreases l@.len() - i,
    {
        proof {
            assert(l.deep_view()[i as int] == l@[i as int]@);
            assert(l.deep_view().skip(i as int).first() == l.deep_view()[i as int]);
            assert(l.deep_view().skip(i as int).drop_first() =~= l.deep_view().skip(i + 1));
        }
        s.append(l[i].as_str());
        s.append("\n");
        proof {
            reveal_strlit("\n");
            assert("\n"@ =~= seq!['\n']);
            assert(s@ + spec_serialize_lines(l.deep_view().skip(i + 1))
                =~= spec_serialize_lines(l.deep_view()) );
        }
        i += 1;
    }
    proof {
        assert(l.deep_view().skip(l.deep_view().len() as int) =~= Seq::<Seq<char>>::empty());
        assert(s@ + Seq::<char>::empty() =~= s@);
    }
    s
}

/// A line the file-list format can carry: free of newlines and carriage
/// returns.
pub open spec fn spec_line_clean(l: Seq<char>) -> bool {
    forall|j: int| 0 <= j < l.len() ==> l[j] != '\n' && l[j] != '\r'
}

/// Writing a file list and loading it back yields the same lines, for
/// lines free of newlines and carriage returns.
pub proof fn lemma_flist_round_trip(l: Seq<Seq<char>>)
    requires
        forall|i: int| 0 <= i < l.len() ==> spec_line_clean(#[trigger] l[i]),
    ensures
        spec_parse_lines(spec_serialize_lines(l)) == l,
    decreases l.len(),
{
    if l.len() == 0 {
    } else {
        let s = spec_serialize_lines(l);
        let l0 = l.first();
        let rest = spec_serialize_lines(l.drop_first());
        assert(s == l0 + seq!['\n'] + rest);
        assert(s.len() == l0.len() + 1 + rest.len());
        lemma_first_nl(s);
        let fi = spec_first_nl(s) as int;
        assert(s[l0.len() as int] == '\n');
        assert(forall|j: int| 0 <= j < l0.len() ==> s[j] == l0[j] && s[j] != '\n');
        if fi < l0.len() {
            assert(s[fi] == '\n');
            assert(false);
        }
        if fi > l0.len() {
            assert(false);
        }
        assert(fi == l0.len());
        assert(fi < s.len());
        assert(s.take(fi) =~= l0);
        assert(spec_strip_cr(l0) == l0);
        assert(s.skip(fi + 1) =~= rest);
        lemma_flist_round_trip(l.drop_first());
        assert(spec_parse_lines(s) =~= seq![l0] + l.drop_first());
        assert(seq![l0] + l.drop_first() =~= l);
    }
}

/// All the lists' entries, in list order.
pub open spec fn spec_concat_lists(s: Seq<Vec<String>>) -> Seq<Seq<char>>
    decreases s.len(),
{
    if s.len() == 0 {
        Seq::empty()
    } else {
        spec_concat_lists(s.drop_last()) + s.last().deep_view()
    }
}

/// The sorted union of the per-root lists, as list creation writes it.
pub fn create_flist_data(lists: &Vec<Vec<String>>) -> (r: Vec<String>)
    ensures
        util::sorted_lex(r.deep_view()),
        r.deep_view().to_multiset() == spec_concat_lists(lists@).to_multiset(),
        r.deep_view().len() == spec_concat_lists(lists@).len(),
{
    let mut l: Vec<String> = Vec::new();
    let mut i: usize = 0;
    proof {
        assert(lists@.take(0) =~= Seq::<Vec<String>>::empty());
        assert(l.deep_view() =~= spec_concat_lists(lists@.take(0)));
    }
    while i < lists.len()
        invariant
            0 <= i <= lists@.len(),
            l.deep_view() == spec_concat_lists(lists@.take(i as int)),
        decreases lists@.len() - i,
    {
        let wp: &Vec<String> = &lists[i];
        let mut j: usize = 0;
        while j < wp.len()
            invariant
                0 <= j <= wp@.len(),
                wp == &lists@[i as int],
                i < lists@.len(),
                l.deep_view() == spec_concat_lists(lists@.take(i as int)) + wp.deep_view().take(
                    j as int,
                ),
            decreases wp@.len() - j,
        {
            let s = wp[j].clone();
            proof {
                assert(wp.deep_view()[j as int] == wp@[j as int]@);
                assert(s@ == wp.deep_view()[j as int]);
            }
            let ghost pre = l.deep_view();
            l.push(s);
            proof {
                assert(l.deep_view() =~= pre.push(s@));
                assert(pre.push(s@) =~= spec_concat_lists(lists@.take(i as int))
                    + wp.deep_view().take(j + 1));
            }
            j += 1;
        }
        proof {
            assert(wp.deep_view().take(wp.deep_view().len() as int) =~= wp.deep_view());
            assert(lists@.take(i + 1).drop_last() =~= lists@.take(i as int));
            assert(lists@.take(i + 1).last() == lists@[i as int]);
        }
        i += 1;
    }
    proof {
        assert(lists@.take(lists@.len() as int) =~= lists@);
    }
    util::sort_strings(&mut l);
    l
}

} // verus!
