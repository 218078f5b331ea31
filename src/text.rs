//! Text helpers over the character view of strings.
use vstd::prelude::*;
use vstd::utf8::{decode_utf8, encode_utf8, encode_utf8_decode_utf8, encode_utf8_valid_utf8};

verus! {

/// The character views of a sequence of strings.
pub open spec fn texts(v: Seq<String>) -> Seq<Seq<char>> {
    v.map_values(|s: String| s@)
}

/// Whether two strings hold the same characters.
pub fn same_text(a: &str, b: &str) -> (r: bool)
    ensures
        r == (a@ == b@),
{
    let x = a.as_bytes();
    let y = b.as_bytes();
    proof {
        broadcast use encode_utf8_decode_utf8, encode_utf8_valid_utf8;

        assert(x@ == encode_utf8(a@));
        assert(y@ == encode_utf8(b@));
        assert(decode_utf8(x@) == a@);
        assert(decode_utf8(y@) == b@);
    }
    if x.len() != y.len() {
        return false;
    }
    let mut i: usize = 0;
    while i < x.len()
        invariant
            x.len() == y.len(),
            i <= x.len(),
            x@ == encode_utf8(a@),
            y@ == encode_utf8(b@),
            forall|k: int| 0 <= k < i ==> x@[k] == y@[k],
        decreases x.len() - i,
    {
        if x[i] != y[i] {
            return false;
        }
        i += 1;
    }
    assert(x@ =~= y@);
    true
}

/// Whether one of the strings of `v` holds the same characters as `t`.
pub fn contains_text(v: &Vec<String>, t: &str) -> (r: bool)
    ensures
        r == texts(v@).contains(t@),
{
    let mut i: usize = 0;
    while i < v.len()
        invariant
            i <= v.len(),
            forall|k: int| 0 <= k < i ==> v@[k]@ != t@,
        decreases v.len() - i,
    {
        if same_text(v[i].as_str(), t) {
            assert(texts(v@)[i as int] == t@);
            return true;
        }
        i += 1;
    }
    assert(!texts(v@).contains(t@)) by {
        if texts(v@).contains(t@) {
            let k = choose|k: int| 0 <= k < texts(v@).len() && texts(v@)[k] == t@;
            assert(v@[k]@ == t@);
        }
    }
    false
}

/// Whether `c` is ASCII whitespace: space, tab, line feed, form feed or
/// carriage return.
pub open spec fn is_blank_char(c: char) -> bool {
    c == ' ' || c == '\t' || c == '\n' || c == '\x0C' || c == '\r'
}

/// Whether `s` is empty once surrounding whitespace is trimmed.
pub open spec fn is_blank(s: Seq<char>) -> bool {
    forall|k: int| 0 <= k < s.len() ==> is_blank_char(#[trigger] s[k])
}

/// The segments of `s` between occurrences of `sep`: `n` separators give
/// `n + 1` segments, some of them possibly empty.
pub open spec fn segments(s: Seq<char>, sep: char) -> Seq<Seq<char>>
    decreases s.len(),
{
    if s.len() == 0 {
        seq![seq![]]
    } else {
        let p = segments(s.drop_last(), sep);
        if s.last() == sep {
            p.push(seq![])
        } else {
            p.update(p.len() - 1, p.last().push(s.last()))
        }
    }
}

/// The segments of `ss` that are not blank, in order.
pub open spec fn non_blank(ss: Seq<Seq<char>>) -> Seq<Seq<char>>
    decreases ss.len(),
{
    if ss.len() == 0 {
        seq![]
    } else if is_blank(ss.last()) {
        non_blank(ss.drop_last())
    } else {
        non_blank(ss.drop_last()).push(ss.last())
    }
}

/// The entries of a `PATH`-like list: its `;`-separated segments, without the
/// blank ones.
pub open spec fn path_entries(s: Seq<char>) -> Seq<Seq<char>> {
    non_blank(segments(s, ';'))
}

/// The texts of `ss` with `sep` between each two of them.
pub open spec fn joined(ss: Seq<Seq<char>>, sep: Seq<char>) -> Seq<char>
    decreases ss.len(),
{
    if ss.len() == 0 {
        seq![]
    } else if ss.len() == 1 {
        ss[0]
    } else {
        joined(ss.drop_last(), sep) + sep + ss.last()
    }
}

/// Whether `s` holds only ASCII whitespace.
pub fn is_blank_text(s: &str) -> (r: bool)
    ensures
        r == is_blank(s@),
{
    let n = s.unicode_len();
    let mut i: usize = 0;
    while i < n
        invariant
            n == s@.len(),
            i <= n,
            forall|k: int| 0 <= k < i ==> is_blank_char(#[trigger] s@[k]),
        decreases n - i,
    {
        let c = s.get_char(i);
        if !(c == ' ' || c == '\t' || c == '\n' || c == '\x0C' || c == '\r') {
            return false;
        }
        i += 1;
    }
    true
}

/// Splits a `PATH`-like value on `;` and drops the segments that are blank.
/// The other segments are kept as they stand, whitespace included.
pub fn split_path_list(raw: &str) -> (r: Vec<String>)
    ensures
        texts(r@) == path_entries(raw@),
{
    let n = raw.unicode_len();
    let mut out: Vec<String> = Vec::new();
    let mut start: usize = 0;
    let mut i: usize = 0;
    proof {
        assert(raw@.take(0) =~= seq![]);
        assert(texts(out@) =~= seq![]);
    }
    while i < n
        invariant
            n == raw@.len(),
            start <= i <= n,
            segments(raw@.take(i as int), ';').len() >= 1,
            segments(raw@.take(i as int), ';').last() == raw@.subrange(start as int, i as int),
            texts(out@) == non_blank(segments(raw@.take(i as int), ';').drop_last()),
        decreases n - i,
    {
        let c = raw.get_char(i);
        let ghost segs = segments(raw@.take(i as int), ';');
        let ghost before = out@;
        proof {
            assert(raw@.take(i + 1).drop_last() =~= raw@.take(i as int));
            assert(raw@.take(i + 1).last() == c);
        }
        if c == ';' {
            let seg = raw.substring_char(start, i);
            if !is_blank_text(seg) {
                out.push(seg.to_owned());
                assert(texts(out@) =~= texts(before).push(seg@));
            }
            proof {
                assert(segments(raw@.take(i + 1), ';') == segs.push(seq![]));
                assert(segs.push(seq![]).drop_last() =~= segs);
            }
            start = i + 1;
        } else {
            proof {
                let upd = segs.update(segs.len() - 1, segs.last().push(c));
                assert(segments(raw@.take(i + 1), ';') == upd);
                assert(upd.drop_last() =~= segs.drop_last());
                assert(upd.last() =~= raw@.subrange(start as int, i + 1));
            }
        }
        i += 1;
    }
    let ghost segs = segments(raw@.take(n as int), ';');
    let ghost before = out@;
    let seg = raw.substring_char(start, n);
    if !is_blank_text(seg) {
        out.push(seg.to_owned());
        assert(texts(out@) =~= texts(before).push(seg@));
    }
    proof {
        assert(raw@.take(n as int) =~= raw@);
        assert(segs =~= segs.drop_last().push(segs.last()));
    }
    out
}

/// The texts of `v` with `sep` between each two of them.
pub fn join_with(v: &Vec<String>, sep: &str) -> (r: String)
    ensures
        r@ == joined(texts(v@), sep@),
{
    let mut out = String::new();
    let mut i: usize = 0;
    proof {
        assert(texts(v@).take(0) =~= seq![]);
    }
    while i < v.len()
        invariant
            i <= v.len(),
            out@ == joined(texts(v@).take(i as int), sep@),
        decreases v.len() - i,
    {
        proof {
            assert(texts(v@).take(i + 1).drop_last() =~= texts(v@).take(i as int));
        }
        if i > 0 {
            out.append(sep);
        }
        out.append(v[i].as_str());
        i += 1;
    }
    proof {
        assert(texts(v@).take(v.len() as int) =~= texts(v@));
    }
    out
}

} // verus!
