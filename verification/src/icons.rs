//! Parsing of icon requests: the path and query of a GET header, and the
//! prefix and icon names a request carries.

use vstd::prelude::*;
use vstd::string::StringSliceAdditionalSpecFns;
use vstd::utf8::{
    encode_utf8, is_char_boundary, is_char_boundary_iff_not_is_continuation_byte,
    is_char_boundary_start_end_of_seq, valid_utf8, valid_utf8_split,
};

verus! {

/// The position of the first occurrence of `b` in `s` at or after `from`,
/// or the length of `s` when there is none.
pub open spec fn spec_find_byte(s: Seq<u8>, b: u8, from: int) -> int
    decreases s.len() - from,
{
    if from < 0 || from >= s.len() {
        s.len() as int
    } else if s[from] == b {
        from
    } else {
        spec_find_byte(s, b, from + 1)
    }
}

/// The pieces of `s` between occurrences of the separator `b`: one piece
/// more than there are separators, in order, separators dropped.
pub open spec fn spec_split_bytes(s: Seq<u8>, b: u8) -> Seq<Seq<u8>>
    decreases s.len(),
{
    let i = spec_find_byte(s, b, 0);
    if 0 <= i < s.len() {
        seq![s.subrange(0, i)] + spec_split_bytes(s.subrange(i + 1, s.len() as int), b)
    } else {
        seq![s]
    }
}

/// A scan that saw no `b` before `i`, and `b` or the end at `i`, found the
/// first occurrence.
proof fn lemma_find_byte(s: Seq<u8>, b: u8, from: int, i: int)
    requires
        0 <= from <= i <= s.len(),
        forall|j: int| from <= j < i ==> s[j] != b,
        i == s.len() || s[i] == b,
    ensures
        spec_find_byte(s, b, from) == i,
    decreases i - from,
{
    if from < i {
        lemma_find_byte(s, b, from + 1, i);
    }
}

/// A position preceded only by ASCII bytes is a character boundary.
proof fn lemma_ascii_prefix_boundary(bytes: Seq<u8>, k: int)
    requires
        valid_utf8(bytes),
        0 <= k <= bytes.len(),
        forall|i: int| 0 <= i < k ==> bytes[i] < 128,
    ensures
        is_char_boundary(bytes, k),
    decreases k,
{
    if k > 0 {
        let rest = vstd::utf8::pop_first_scalar(bytes);
        assert(vstd::utf8::length_of_first_scalar(bytes) == 1);
        assert(forall|i: int| 0 <= i < k - 1 ==> rest[i] < 128);
        lemma_ascii_prefix_boundary(rest, k - 1);
    }
}

/// A position holding a byte of its own (an ASCII separator, never a
/// continuation byte) is a character boundary; so is the end.
proof fn lemma_separator_boundary(bytes: Seq<u8>, k: int)
    requires
        valid_utf8(bytes),
        0 <= k <= bytes.len(),
        k < bytes.len() ==> bytes[k] < 128,
    ensures
        is_char_boundary(bytes, k),
{
    if k == bytes.len() {
        is_char_boundary_start_end_of_seq(bytes);
    } else {
        is_char_boundary_iff_not_is_continuation_byte(bytes, k);
    }
}

/// Scans a string's bytes for `b`, starting at `from`.
fn find_byte_from(s: &str, b: u8, from: usize) -> (i: usize)
    requires
        from <= s.spec_bytes().len(),
    ensures
        i == spec_find_byte(s.spec_bytes(), b, from as int),
        from <= i <= s.spec_bytes().len(),
        i < s.spec_bytes().len() ==> s.spec_bytes()[i as int] == b,
{
    let bytes = s.as_bytes();
    let ghost all = s.spec_bytes();
    let mut i: usize = from;
    while i < bytes.len()
        invariant
            bytes@ == all,
            all == s.spec_bytes(),
            from <= i <= all.len(),
            forall|j: int| from <= j < i ==> all[j] != b,
        decreases all.len() - i,
    {
        if bytes[i] == b {
            proof {
                lemma_find_byte(all, b, from as int, i as int);
            }
            return i;
        }
        i += 1;
    }
    proof {
        lemma_find_byte(all, b, from as int, all.len() as int);
    }
    i
}

/// Splits a GET header into its path and its query parts.
///
/// The path is everything before the first `?`. When there is a `?`, the
/// query is everything between the first and the second `?` (or the end),
/// split on `&`; without one there is no query.
pub fn parse_get_header(get_header: &str) -> (res: (Option<String>, Option<Vec<String>>))
    ensures
        ({
            let bytes = get_header.spec_bytes();
            let p = spec_find_byte(bytes, 63, 0);
            &&& res.0 matches Some(path) && encode_utf8(path@) == bytes.subrange(0, p)
            &&& p == bytes.len() ==> res.1 is None
            &&& p < bytes.len() ==> {
                let q2 = spec_find_byte(bytes, 63, p + 1);
                let segs = spec_split_bytes(bytes.subrange(p + 1, q2), 38);
                res.1 matches Some(qs) && qs@.len() == segs.len() && forall|k: int|
                    0 <= k < segs.len() ==> encode_utf8((#[trigger] qs@[k])@) == segs[k]
            }
        }),
{
    let ghost bytes = get_header.spec_bytes();
    proof {
        vstd::utf8::encode_utf8_valid_utf8(get_header@);
    }
    let p = find_byte_from(get_header, 63, 0);
    proof {
        lemma_separator_boundary(bytes, p as int);
    }
    let (path_str, rest) = get_header.split_at(p);
    let path = path_str.to_owned();
    let header_bytes = get_header.as_bytes();
    if p == header_bytes.len() {
        return (Some(path), None);
    }

    // Cut the query out of the rest: drop the leading `?`, then stop at the
    // next `?` or the end.
    proof {
        valid_utf8_split(bytes, p as int);
        assert(valid_utf8(rest.spec_bytes()));
        lemma_ascii_prefix_boundary(rest.spec_bytes(), 1);
    }
    let (_, after) = rest.split_at(1);
    let q2 = find_byte_from(get_header, 63, p + 1);
    proof {
        valid_utf8_split(rest.spec_bytes(), 1);
        assert(valid_utf8(after.spec_bytes()));
        assert(after.spec_bytes() =~= bytes.subrange(p as int + 1, bytes.len() as int));
        if (q2 as int) < bytes.len() {
            assert(after.spec_bytes()[q2 - p - 1] == bytes[q2 as int]);
        }
        lemma_separator_boundary(after.spec_bytes(), q2 as int - p - 1);
    }
    let (query_str, _) = after.split_at(q2 - p - 1);
    proof {
        valid_utf8_split(after.spec_bytes(), q2 as int - p - 1);
        assert(valid_utf8(query_str.spec_bytes()));
        assert(query_str.spec_bytes() =~= bytes.subrange(p as int + 1, q2 as int));
    }

    // Split the query on `&`.
    let ghost whole = query_str.spec_bytes();
    let ghost segs = spec_split_bytes(whole, 38);
    let mut out: Vec<String> = Vec::new();
    let mut cur: &str = query_str;
    loop
        invariant_except_break
            valid_utf8(cur.spec_bytes()),
            segs == spec_split_bytes(whole, 38),
            out@.len() + spec_split_bytes(cur.spec_bytes(), 38).len() == segs.len(),
            forall|k: int|
                0 <= k < out@.len() ==> encode_utf8((#[trigger] out@[k])@) == segs[k],
            forall|k: int|
                0 <= k < spec_split_bytes(cur.spec_bytes(), 38).len() ==> spec_split_bytes(
                    cur.spec_bytes(),
                    38,
                )[k] == segs[out@.len() + k],
        ensures
            out@.len() == segs.len(),
            forall|k: int|
                0 <= k < out@.len() ==> encode_utf8((#[trigger] out@[k])@) == segs[k],
        decreases cur.spec_bytes().len(),
    {
        let a = find_byte_from(cur, 38, 0);
        let cur_bytes = cur.as_bytes();
        if a == cur_bytes.len() {
            proof {
                assert(spec_find_byte(cur.spec_bytes(), 38, 0) == cur.spec_bytes().len());
                assert(spec_split_bytes(cur.spec_bytes(), 38) == seq![cur.spec_bytes()]);
            }
            out.push(cur.to_owned());
            proof {
                let last = out@.len() - 1;
                assert(spec_split_bytes(cur.spec_bytes(), 38)[0] == segs[last]);
                assert(encode_utf8(out@[last]@) == segs[last]);
            }
            break;
        }
        proof {
            lemma_separator_boundary(cur.spec_bytes(), a as int);
        }
        let (seg, rem) = cur.split_at(a);
        proof {
            valid_utf8_split(cur.spec_bytes(), a as int);
            assert(valid_utf8(rem.spec_bytes()));
            lemma_ascii_prefix_boundary(rem.spec_bytes(), 1);
        }
        let (_, rem2) = rem.split_at(1);
        let ghost prev = cur.spec_bytes();
        proof {
            assert(seg.spec_bytes() =~= prev.subrange(0, a as int));
            assert(rem2.spec_bytes() =~= prev.subrange(a as int + 1, prev.len() as int));
            valid_utf8_split(rem.spec_bytes(), 1);
            assert(valid_utf8(rem2.spec_bytes()));
            assert(spec_split_bytes(prev, 38) == seq![prev.subrange(0, a as int)]
                + spec_split_bytes(prev.subrange(a as int + 1, prev.len() as int), 38));
        }
        out.push(seg.to_owned());
        cur = rem2;
        proof {
            let last = out@.len() - 1;
            assert(spec_split_bytes(prev, 38)[0] == segs[last]);
            assert(spec_split_bytes(prev, 38)[0] == prev.subrange(0, a as int));
            assert(encode_utf8(out@[last]@) == segs[last]);
            let tail_split = spec_split_bytes(cur.spec_bytes(), 38);
            assert forall|k: int|
                0 <= k < tail_split.len() implies tail_split[k] == segs[out@.len() + k] by {
                assert(spec_split_bytes(prev, 38)[k + 1] == tail_split[k]);
            }
        }
    }
    (Some(path), Some(out))
}

/// The bytes of `/api/`, the path prefix of an icon request.
pub open spec fn spec_api_prefix() -> Seq<u8> {
    seq![47u8, 97u8, 112u8, 105u8, 47u8]
}

/// The bytes of `.json`, the suffix of an icon-set name.
pub open spec fn spec_json_suffix() -> Seq<u8> {
    seq![46u8, 106u8, 115u8, 111u8, 110u8]
}

/// The bytes of `icons=`, the query that names the requested icons.
pub open spec fn spec_icons_prefix() -> Seq<u8> {
    seq![105u8, 99u8, 111u8, 110u8, 115u8, 61u8]
}

/// Whether a query names the requested icons.
pub open spec fn spec_is_icons_query(q: String) -> bool {
    let b = encode_utf8(q@);
    b.len() >= 6 && b.subrange(0, 6) == spec_icons_prefix()
}

/// The position of the first icon-naming query at or after `j`, or the
/// number of queries when there is none.
pub open spec fn spec_find_icons_query(qs: Seq<String>, j: int) -> int
    decreases qs.len() - j,
{
    if j < 0 || j >= qs.len() {
        qs.len() as int
    } else if spec_is_icons_query(qs[j]) {
        j
    } else {
        spec_find_icons_query(qs, j + 1)
    }
}

/// Whether an icon-name separator starts at `i`: a comma, or its escaped
/// form `%2C`.
pub open spec fn spec_icon_delim_at(s: Seq<u8>, i: int) -> bool {
    s[i] == 44 || (s[i] == 37 && i + 2 < s.len() && s[i + 1] == 50 && s[i + 2] == 67)
}

/// The position of the first icon-name separator at or after `from`, or
/// the length of `s` when there is none.
pub open spec fn spec_find_icon_delim(s: Seq<u8>, from: int) -> int
    decreases s.len() - from,
{
    if from < 0 || from >= s.len() {
        s.len() as int
    } else if spec_icon_delim_at(s, from) {
        from
    } else {
        spec_find_icon_delim(s, from + 1)
    }
}

/// The icon names of a request value: the pieces between separators, each
/// separator a comma or its escaped form, leftmost first.
pub open spec fn spec_split_icons(s: Seq<u8>) -> Seq<Seq<u8>>
    decreases s.len(),
{
    let i = spec_find_icon_delim(s, 0);
    if 0 <= i && i + 2 < s.len() && s[i] == 37 && s[i + 1] == 50 && s[i + 2] == 67 {
        seq![s.subrange(0, i)] + spec_split_icons(s.subrange(i + 3, s.len() as int))
    } else if 0 <= i < s.len() {
        seq![s.subrange(0, i)] + spec_split_icons(s.subrange(i + 1, s.len() as int))
    } else {
        seq![s]
    }
}

/// A scan that saw no separator before `i`, and a separator or the end at
/// `i`, found the first one.
proof fn lemma_find_icon_delim(s: Seq<u8>, from: int, i: int)
    requires
        0 <= from <= i <= s.len(),
        forall|j: int| from <= j < i ==> !spec_icon_delim_at(s, j),
        i == s.len() || spec_icon_delim_at(s, i),
    ensures
        spec_find_icon_delim(s, from) == i,
    decreases i - from,
{
    if from < i {
        lemma_find_icon_delim(s, from + 1, i);
    }
}

/// Scans a string's bytes for the first icon-name separator.
fn find_icon_delim(s: &str) -> (i: usize)
    ensures
        i == spec_find_icon_delim(s.spec_bytes(), 0),
        i <= s.spec_bytes().len(),
        i < s.spec_bytes().len() ==> spec_icon_delim_at(s.spec_bytes(), i as int),
{
    let bytes = s.as_bytes();
    let ghost all = s.spec_bytes();
    let mut i: usize = 0;
    while i < bytes.len()
        invariant
            bytes@ == all,
            all == s.spec_bytes(),
            i <= all.len(),
            forall|j: int| 0 <= j < i ==> !spec_icon_delim_at(all, j),
        decreases all.len() - i,
    {
        let c = bytes[i];
        if c == 44 {
            proof {
                lemma_find_icon_delim(all, 0, i as int);
            }
            return i;
        }
        if c == 37 && bytes.len() >= 3 && i < bytes.len() - 2 && bytes[i + 1] == 50 && bytes[i
            + 2] == 67 {
            proof {
                lemma_find_icon_delim(all, 0, i as int);
            }
            return i;
        }
        i += 1;
    }
    proof {
        lemma_find_icon_delim(all, 0, all.len() as int);
    }
    i
}

/// Whether a query string starts with `icons=`.
fn is_icons_query(q: &String) -> (b: bool)
    ensures
        b == spec_is_icons_query(*q),
{
    let bytes = q.as_str().as_bytes();
    let r = bytes.len() >= 6 && bytes[0] == 105 && bytes[1] == 99 && bytes[2] == 111
        && bytes[3] == 110 && bytes[4] == 115 && bytes[5] == 61;
    proof {
        let qb = encode_utf8(q@);
        if r {
            assert(qb.subrange(0, 6) =~= spec_icons_prefix());
        } else if qb.len() >= 6 {
            if qb.subrange(0, 6) == spec_icons_prefix() {
                assert(qb[0] == 105 && qb[1] == 99 && qb[2] == 111 && qb[3] == 110 && qb[4]
                    == 115 && qb[5] == 61) by {
                    assert(forall|j: int|
                        0 <= j < 6 ==> qb.subrange(0, 6)[j] == #[trigger] qb[j]);
                }
            }
        }
    }
    r
}

/// Extracts the icon-set prefix and the icon names from an icon request.
///
/// The path must be `/api/<prefix>.json`; the first query of the shape
/// `icons=a,b` (commas possibly escaped as `%2C`) names the icons. Without
/// either, the request names nothing.
pub fn get_prefix_and_icon(path: &str, queries: &Vec<String>) -> (res: Option<(String, Vec<String>)>)
    ensures
        ({
            let pb = path.spec_bytes();
            let prefix_ok = pb.len() >= 5 && pb.subrange(0, 5) == spec_api_prefix();
            let inner = pb.subrange(5, pb.len() as int);
            let suffix_ok = inner.len() >= 5 && inner.subrange(
                inner.len() - 5,
                inner.len() as int,
            ) == spec_json_suffix();
            let qi = spec_find_icons_query(queries@, 0);
            &&& res is Some <==> prefix_ok && suffix_ok && qi < queries@.len()
            &&& res matches Some(pi) ==> {
                let qb = encode_utf8(queries@[qi]@);
                let segs = spec_split_icons(qb.subrange(6, qb.len() as int));
                &&& encode_utf8(pi.0@) == inner.subrange(0, inner.len() - 5)
                &&& pi.1@.len() == segs.len()
                &&& forall|k: int|
                    0 <= k < segs.len() ==> encode_utf8((#[trigger] pi.1@[k])@) == segs[k]
            }
        }),
{
    let ghost pb = path.spec_bytes();
    proof {
        vstd::utf8::encode_utf8_valid_utf8(path@);
    }
    let bytes = path.as_bytes();

    // To get the prefix, remove the leading `/api/`.
    if bytes.len() < 5 {
        return None;
    }
    if !(bytes[0] == 47 && bytes[1] == 97 && bytes[2] == 112 && bytes[3] == 105 && bytes[4]
        == 47) {
        proof {
            assert(pb.subrange(0, 5) != spec_api_prefix()) by {
                if pb.subrange(0, 5) == spec_api_prefix() {
                    assert(forall|j: int|
                        0 <= j < 5 ==> pb.subrange(0, 5)[j] == #[trigger] pb[j]);
                }
            }
        }
        return None;
    }
    proof {
        assert(pb.subrange(0, 5) =~= spec_api_prefix());
        lemma_ascii_prefix_boundary(pb, 5);
    }
    let (_, inner_str) = path.split_at(5);
    proof {
        valid_utf8_split(pb, 5);
        assert(valid_utf8(inner_str.spec_bytes()));
    }
    let ghost inner = pb.subrange(5, pb.len() as int);
    let inner_bytes = inner_str.as_bytes();

    // Remove the trailing `.json` from the prefix.
    if inner_bytes.len() < 5 {
        return None;
    }
    let cut = inner_bytes.len() - 5;
    if !(inner_bytes[cut] == 46 && inner_bytes[cut + 1] == 106 && inner_bytes[cut + 2] == 115
        && inner_bytes[cut + 3] == 111 && inner_bytes[cut + 4] == 110) {
        proof {
            assert(inner.subrange(inner.len() - 5, inner.len() as int) != spec_json_suffix())
                by {
                if inner.subrange(inner.len() - 5, inner.len() as int) == spec_json_suffix() {
                    assert(forall|j: int|
                        0 <= j < 5 ==> inner.subrange(inner.len() - 5, inner.len() as int)[j]
                            == #[trigger] inner[inner.len() - 5 + j]);
                }
            }
        }
        return None;
    }
    proof {
        assert(inner.subrange(inner.len() - 5, inner.len() as int) =~= spec_json_suffix());
        lemma_separator_boundary(inner_str.spec_bytes(), cut as int);
    }
    let (prefix_str, _) = inner_str.split_at(cut);
    let prefix = prefix_str.to_owned();
    proof {
        assert(encode_utf8(prefix@) =~= inner.subrange(0, inner.len() - 5));
    }

    // Among the queries, look for the one of shape `icons=...`.
    let mut qi: usize = 0;
    loop
        invariant_except_break
            qi <= queries@.len(),
            forall|j: int| 0 <= j < qi ==> !spec_is_icons_query(queries@[j]),
        ensures
            qi <= queries@.len(),
            qi == spec_find_icons_query(queries@, 0),
            qi < queries@.len() ==> spec_is_icons_query(queries@[qi as int]),
        decreases queries@.len() - qi,
    {
        if qi == queries.len() {
            proof {
                lemma_find_icons_query(queries@, 0, qi as int);
            }
            break;
        }
        if is_icons_query(&queries[qi]) {
            proof {
                lemma_find_icons_query(queries@, 0, qi as int);
            }
            break;
        }
        qi += 1;
    }
    if qi == queries.len() {
        return None;
    }

    // Strip `icons=` from the chosen query, and split the names on commas,
    // escaped or not.
    let q = &queries[qi];
    let ghost qb = encode_utf8(q@);
    proof {
        vstd::utf8::encode_utf8_valid_utf8(q@);
        assert(qb[0] == 105 && qb[1] == 99 && qb[2] == 111 && qb[3] == 110 && qb[4] == 115
            && qb[5] == 61) by {
            assert(forall|j: int| 0 <= j < 6 ==> qb.subrange(0, 6)[j] == #[trigger] qb[j]);
        }
        lemma_ascii_prefix_boundary(qb, 6);
    }
    let (_, icons_str) = q.as_str().split_at(6);
    proof {
        valid_utf8_split(qb, 6);
        assert(valid_utf8(icons_str.spec_bytes()));
    }

    let ghost whole = icons_str.spec_bytes();
    let ghost segs = spec_split_icons(whole);
    let mut icons: Vec<String> = Vec::new();
    let mut cur: &str = icons_str;
    loop
        invariant_except_break
            valid_utf8(cur.spec_bytes()),
            segs == spec_split_icons(whole),
            icons@.len() + spec_split_icons(cur.spec_bytes()).len() == segs.len(),
            forall|k: int|
                0 <= k < icons@.len() ==> encode_utf8((#[trigger] icons@[k])@) == segs[k],
            forall|k: int|
                0 <= k < spec_split_icons(cur.spec_bytes()).len() ==> spec_split_icons(
                    cur.spec_bytes(),
                )[k] == segs[icons@.len() + k],
        ensures
            icons@.len() == segs.len(),
            forall|k: int|
                0 <= k < icons@.len() ==> encode_utf8((#[trigger] icons@[k])@) == segs[k],
        decreases cur.spec_bytes().len(),
    {
        let d = find_icon_delim(cur);
        let cur_bytes = cur.as_bytes();
        if d == cur_bytes.len() {
            proof {
                assert(spec_split_icons(cur.spec_bytes()) == seq![cur.spec_bytes()]);
            }
            icons.push(cur.to_owned());
            proof {
                let last = icons@.len() - 1;
                assert(spec_split_icons(cur.spec_bytes())[0] == segs[last]);
                assert(encode_utf8(icons@[last]@) == segs[last]);
            }
            break;
        }
        proof {
            lemma_separator_boundary(cur.spec_bytes(), d as int);
        }
        let (seg, rem) = cur.split_at(d);
        let rem_bytes = rem.as_bytes();
        let skip: usize = if rem_bytes[0] == 44 {
            1
        } else {
            3
        };
        proof {
            valid_utf8_split(cur.spec_bytes(), d as int);
            assert(valid_utf8(rem.spec_bytes()));
            assert(rem.spec_bytes() =~= cur.spec_bytes().subrange(
                d as int,
                cur.spec_bytes().len() as int,
            ));
            lemma_ascii_prefix_boundary(rem.spec_bytes(), skip as int);
        }
        let (_, rem2) = rem.split_at(skip);
        let ghost prev = cur.spec_bytes();
        proof {
            assert(seg.spec_bytes() =~= prev.subrange(0, d as int));
            assert(rem2.spec_bytes() =~= prev.subrange(d as int + skip, prev.len() as int));
            valid_utf8_split(rem.spec_bytes(), skip as int);
            assert(valid_utf8(rem2.spec_bytes()));
            assert(spec_split_icons(prev) == seq![prev.subrange(0, d as int)]
                + spec_split_icons(prev.subrange(d as int + skip, prev.len() as int)));
        }
        icons.push(seg.to_owned());
        cur = rem2;
        proof {
            let last = icons@.len() - 1;
            assert(spec_split_icons(prev)[0] == segs[last]);
            assert(spec_split_icons(prev)[0] == prev.subrange(0, d as int));
            assert(encode_utf8(icons@[last]@) == segs[last]);
            let tail_split = spec_split_icons(cur.spec_bytes());
            assert forall|k: int|
                0 <= k < tail_split.len() implies tail_split[k] == segs[icons@.len() + k] by {
                assert(spec_split_icons(prev)[k + 1] == tail_split[k]);
            }
        }
    }

    Some((prefix, icons))
}

/// A scan that saw no icon-naming query before `i`, and one or the end at
/// `i`, found the first one.
proof fn lemma_find_icons_query(qs: Seq<String>, from: int, i: int)
    requires
        0 <= from <= i <= qs.len(),
        forall|j: int| from <= j < i ==> !spec_is_icons_query(qs[j]),
        i == qs.len() || spec_is_icons_query(qs[i]),
    ensures
        spec_find_icons_query(qs, from) == i,
    decreases i - from,
{
    if from < i {
        lemma_find_icons_query(qs, from + 1, i);
    }
}

} // verus!
