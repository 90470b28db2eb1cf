use vstd::prelude::*;
use vstd::set_lib::{lemma_int_range, lemma_len_subset, set_int_range};

verus! {

/// Workspace id used when the window-manager query fails.
pub const DEFAULT_WORKSPACE: i32 = 1;

/// Byte classes that get trimmed off an id segment: whitespace, commas and
/// double quotes, in that order, as a line `"id": 4,` demands.
pub const CLASS_SPACE: u8 = 0;

pub const CLASS_COMMA: u8 = 1;

pub const CLASS_QUOTE: u8 = 2;

/// Whether byte `b` belongs to the trim class `class`.
pub open spec fn in_class(b: u8, class: u8) -> bool {
    if class == CLASS_SPACE {
        b == 32 || (9 <= b && b <= 13)
    } else if class == CLASS_COMMA {
        b == 44
    } else {
        b == 34
    }
}

fn in_class_exec(b: u8, class: u8) -> (r: bool)
    ensures
        r == in_class(b, class),
{
    if class == CLASS_SPACE {
        b == 32 || (9 <= b && b <= 13)
    } else if class == CLASS_COMMA {
        b == 44
    } else {
        b == 34
    }
}

/// First index at or after `from` holding byte `b`, or the length if none does.
pub open spec fn find_byte(s: Seq<u8>, b: u8, from: int) -> int
    decreases s.len() - from,
{
    if from < 0 {
        s.len() as int
    } else if from >= s.len() {
        s.len() as int
    } else if s[from] == b {
        from
    } else {
        find_byte(s, b, from + 1)
    }
}

/// The first occurrence lies between `from` and the length.
proof fn lemma_find_byte_bounds(s: Seq<u8>, b: u8, from: int)
    requires
        0 <= from <= s.len(),
    ensures
        from <= find_byte(s, b, from) <= s.len(),
    decreases s.len() - from,
{
    if from < s.len() && s[from] != b {
        lemma_find_byte_bounds(s, b, from + 1);
    }
}

/// A byte at index `j` bounds the first occurrence from the left.
proof fn lemma_find_byte_le(s: Seq<u8>, b: u8, from: int, j: int)
    requires
        0 <= from <= j < s.len(),
        s[j] == b,
    ensures
        find_byte(s, b, from) <= j,
    decreases j - from,
{
    if from < j && s[from] != b {
        lemma_find_byte_le(s, b, from + 1, j);
    }
}

fn find_b(v: &Vec<u8>, b: u8, from: usize) -> (r: usize)
    requires
        from <= v@.len(),
    ensures
        r == find_byte(v@, b, from as int),
        from <= r <= v@.len(),
    decreases v@.len() - from,
{
    if from >= v.len() {
        v.len()
    } else if v[from] == b {
        from
    } else {
        find_b(v, b, from + 1)
    }
}

/// The five bytes `"id":` that mark a workspace-id line of the report.
pub open spec fn id_marker() -> Seq<u8> {
    seq![34u8, 105u8, 100u8, 34u8, 58u8]
}

/// Whether the marker occurs at or after index `i`.
pub open spec fn has_marker_from(s: Seq<u8>, i: int) -> bool
    decreases s.len() - i,
{
    if i < 0 || i + 5 > s.len() {
        false
    } else if s.subrange(i, i + 5) == id_marker() {
        true
    } else {
        has_marker_from(s, i + 1)
    }
}

/// Whether the line mentions a workspace id at all.
pub open spec fn has_id_marker(s: Seq<u8>) -> bool {
    has_marker_from(s, 0)
}

/// The marker ends in a colon, so a marked line has a colon.
proof fn lemma_marker_gives_colon(s: Seq<u8>, i: int)
    requires
        0 <= i,
        has_marker_from(s, i),
    ensures
        exists|j: int| 0 <= j < s.len() && s[j] == 58,
    decreases s.len() - i,
{
    if i + 5 <= s.len() && s.subrange(i, i + 5) == id_marker() {
        assert(s.subrange(i, i + 5)[4] == id_marker()[4]);
        assert(s[i + 4] == 58);
    } else {
        lemma_marker_gives_colon(s, i + 1);
    }
}

fn marker_at(v: &Vec<u8>, i: usize) -> (r: bool)
    requires
        i + 5 <= v@.len(),
    ensures
        r == (v@.subrange(i as int, i as int + 5) == id_marker()),
{
    let n = v.len();
    let r = v[i] == 34 && v[i + 1] == 105 && v[i + 2] == 100 && v[i + 3] == 34 && v[i + 4] == 58;
    proof {
        assert(i + 5 <= n);
        let sub = v@.subrange(i as int, i as int + 5);
        assert(sub[0] == v@[i as int] && sub[1] == v@[i as int + 1] && sub[2] == v@[i as int + 2]
            && sub[3] == v@[i as int + 3] && sub[4] == v@[i as int + 4]);
        assert(id_marker()[0] == 34u8 && id_marker()[1] == 105u8 && id_marker()[2] == 100u8
            && id_marker()[3] == 34u8 && id_marker()[4] == 58u8);
        if r {
            assert(sub =~= id_marker());
        }
    }
    r
}

fn has_marker_from_exec(v: &Vec<u8>, i: usize) -> (r: bool)
    requires
        i <= v@.len(),
    ensures
        r == has_marker_from(v@, i as int),
    decreases v@.len() - i,
{
    if v.len() < 5 || i > v.len() - 5 {
        false
    } else if marker_at(v, i) {
        true
    } else {
        has_marker_from_exec(v, i + 1)
    }
}

/// First index in `[lo, hi)` whose byte is not in the class, scanning from the
/// left; `hi` if the whole range is in the class.
pub open spec fn skip_front(s: Seq<u8>, class: u8, lo: int, hi: int) -> int
    decreases hi - lo,
{
    if lo < hi && in_class(s[lo], class) {
        skip_front(s, class, lo + 1, hi)
    } else {
        lo
    }
}

/// One past the last index in `[lo, hi)` whose byte is not in the class,
/// scanning from the right; `lo` if the whole range is in the class.
pub open spec fn skip_back(s: Seq<u8>, class: u8, lo: int, hi: int) -> int
    decreases hi - lo,
{
    if lo < hi && in_class(s[hi - 1], class) {
        skip_back(s, class, lo, hi - 1)
    } else {
        hi
    }
}

fn skip_front_exec(v: &Vec<u8>, class: u8, lo: usize, hi: usize) -> (r: usize)
    requires
        lo <= hi <= v@.len(),
    ensures
        r == skip_front(v@, class, lo as int, hi as int),
        lo <= r <= hi,
    decreases hi - lo,
{
    if lo < hi && in_class_exec(v[lo], class) {
        skip_front_exec(v, class, lo + 1, hi)
    } else {
        lo
    }
}

fn skip_back_exec(v: &Vec<u8>, class: u8, lo: usize, hi: usize) -> (r: usize)
    requires
        lo <= hi <= v@.len(),
    ensures
        r == skip_back(v@, class, lo as int, hi as int),
        lo <= r <= hi,
    decreases hi - lo,
{
    if lo < hi && in_class_exec(v[hi - 1], class) {
        skip_back_exec(v, class, lo, hi - 1)
    } else {
        hi
    }
}

fn sub_vec(v: &Vec<u8>, lo: usize, hi: usize) -> (r: Vec<u8>)
    requires
        lo <= hi <= v@.len(),
    ensures
        r@ == v@.subrange(lo as int, hi as int),
{
    let mut r: Vec<u8> = Vec::new();
    let mut i: usize = lo;
    while i < hi
        invariant
            lo <= i <= hi <= v@.len(),
            r@ == v@.subrange(lo as int, i as int),
        decreases hi - i,
    {
        r.push(v[i]);
        proof {
            assert(v@.subrange(lo as int, i + 1) =~= v@.subrange(lo as int, i as int).push(
                v@[i as int],
            ));
        }
        i = i + 1;
    }
    r
}

/// Whether byte `b` is an ASCII decimal digit.
pub open spec fn is_digit(b: u8) -> bool {
    48 <= b <= 57
}

/// Whether the whole segment is made of decimal digits.
pub open spec fn all_digits(s: Seq<u8>) -> bool {
    forall|i: int| 0 <= i < s.len() ==> is_digit(#[trigger] s[i])
}

/// The number a digit segment denotes in base ten.
pub open spec fn digits_val(s: Seq<u8>) -> int
    decreases s.len(),
{
    if s.len() == 0 {
        0
    } else {
        digits_val(s.drop_last()) * 10 + (s.last() - 48)
    }
}

proof fn lemma_digits_val_nonneg(s: Seq<u8>)
    requires
        all_digits(s),
    ensures
        digits_val(s) >= 0,
    decreases s.len(),
{
    if s.len() > 0 {
        assert(all_digits(s.drop_last()));
        lemma_digits_val_nonneg(s.drop_last());
    }
}

/// Appending further digits never shrinks the denoted number.
proof fn lemma_digits_prefix_le(s: Seq<u8>, k: int)
    requires
        all_digits(s),
        0 <= k <= s.len(),
    ensures
        digits_val(s.take(k)) <= digits_val(s),
    decreases s.len() - k,
{
    if k == s.len() {
        assert(s.take(k) =~= s);
    } else {
        assert(s.take(k + 1).drop_last() =~= s.take(k));
        assert(all_digits(s.take(k)));
        lemma_digits_val_nonneg(s.take(k));
        assert(digits_val(s.take(k + 1)) == digits_val(s.take(k)) * 10 + (s[k] - 48));
        lemma_digits_prefix_le(s, k + 1);
    }
}

/// The number an id segment denotes: an optional sign, then at least one
/// digit, rejected when anything else appears or the value leaves `i32`.
pub open spec fn parse_i32(s: Seq<u8>) -> Option<i32> {
    if s.len() == 0 {
        Option::None
    } else {
        let neg = s[0] == 45;
        let ds = if s[0] == 45 || s[0] == 43 {
            s.skip(1)
        } else {
            s
        };
        if ds.len() == 0 || !all_digits(ds) {
            Option::None
        } else {
            let v = if neg {
                -digits_val(ds)
            } else {
                digits_val(ds)
            };
            if v < -0x8000_0000 || 0x7fff_ffff < v {
                Option::None
            } else {
                Option::Some(v as i32)
            }
        }
    }
}

fn parse_i32_exec(v: &Vec<u8>) -> (r: Option<i32>)
    ensures
        r == parse_i32(v@),
{
    if v.len() == 0 {
        return Option::None;
    }
    let first = v[0];
    let neg = first == 45;
    let start: usize = if first == 45 || first == 43 {
        1
    } else {
        0
    };
    if v.len() == start {
        return Option::None;
    }
    let ghost ds = if v@[0] == 45 || v@[0] == 43 {
        v@.skip(1)
    } else {
        v@
    };
    let mut acc: i64 = 0;
    let mut i: usize = start;
    while i < v.len()
        invariant
            start <= i <= v@.len(),
            start == 1 <==> (v@[0] == 45 || v@[0] == 43),
            start < v@.len(),
            neg == (v@[0] == 45),
            ds == (if v@[0] == 45 || v@[0] == 43 {
                v@.skip(1)
            } else {
                v@
            }),
            ds.len() == v@.len() - start,
            forall|j: int| 0 <= j < ds.len() ==> ds[j] == v@[j + start],
            all_digits(ds.take(i - start)),
            acc == digits_val(ds.take(i - start)),
            0 <= acc <= 0x8000_0000,
        decreases v@.len() - i,
    {
        let b = v[i];
        if b < 48 || b > 57 {
            assert(!all_digits(ds)) by {
                assert(ds[i - start] == v@[i as int]);
            }
            return Option::None;
        }
        acc = acc * 10 + ((b - 48) as i64);
        proof {
            assert(ds.take(i - start + 1).drop_last() =~= ds.take(i - start));
            assert(ds.take(i - start + 1).last() == v@[i as int]);
            assert(all_digits(ds.take(i - start + 1)));
        }
        if acc > 0x8000_0000 {
            proof {
                if all_digits(ds) {
                    lemma_digits_prefix_le(ds, i - start + 1);
                }
            }
            return Option::None;
        }
        i = i + 1;
    }
    proof {
        assert(ds.take(i - start) =~= ds);
    }
    if neg {
        Option::Some((-acc) as i32)
    } else {
        if acc > 0x7fff_ffff {
            Option::None
        } else {
            Option::Some(acc as i32)
        }
    }
}

/// The id a report line yields: a line without the marker yields nothing;
/// otherwise the segment between the first colon and the next one (or the end
/// of the line) is stripped of whitespace, commas and quotes and read as a
/// number.
pub open spec fn line_id(line: Seq<u8>) -> Option<i32> {
    if !has_id_marker(line) {
        Option::None
    } else {
        let c1 = find_byte(line, 58, 0);
        let c2 = find_byte(line, 58, c1 + 1);
        let l1 = skip_front(line, CLASS_SPACE, c1 + 1, c2);
        let h1 = skip_back(line, CLASS_SPACE, l1, c2);
        let l2 = skip_front(line, CLASS_COMMA, l1, h1);
        let h2 = skip_back(line, CLASS_COMMA, l2, h1);
        let l3 = skip_front(line, CLASS_QUOTE, l2, h2);
        let h3 = skip_back(line, CLASS_QUOTE, l3, h2);
        parse_i32(line.subrange(l3, h3))
    }
}

fn line_id_exec(line: &Vec<u8>) -> (r: Option<i32>)
    ensures
        r == line_id(line@),
{
    if !has_marker_from_exec(line, 0) {
        return Option::None;
    }
    let n = line.len();
    proof {
        lemma_marker_gives_colon(line@, 0);
        let j = choose|j: int| 0 <= j < line@.len() && line@[j] == 58;
        lemma_find_byte_le(line@, 58, 0, j);
        assert(find_byte(line@, 58, 0) < n);
    }
    let c1 = find_b(line, 58, 0);
    let c2 = find_b(line, 58, c1 + 1);
    let l1 = skip_front_exec(line, CLASS_SPACE, c1 + 1, c2);
    let h1 = skip_back_exec(line, CLASS_SPACE, l1, c2);
    let l2 = skip_front_exec(line, CLASS_COMMA, l1, h1);
    let h2 = skip_back_exec(line, CLASS_COMMA, l2, h1);
    let l3 = skip_front_exec(line, CLASS_QUOTE, l2, h2);
    let h3 = skip_back_exec(line, CLASS_QUOTE, l3, h2);
    let seg = sub_vec(line, l3, h3);
    parse_i32_exec(&seg)
}

/// The ids that the report's lines yield from position `from` on, in order.
pub open spec fn parsed_ids_from(s: Seq<u8>, from: int) -> Seq<i32>
    decreases s.len() - from,
    via parsed_ids_from_dec
{
    if from < 0 || from > s.len() {
        Seq::empty()
    } else {
        let k = find_byte(s, 10, from);
        let id = line_id(s.subrange(from, k));
        let rest = if k >= s.len() {
            Seq::<i32>::empty()
        } else {
            parsed_ids_from(s, k + 1)
        };
        match id {
            Option::Some(v) => seq![v] + rest,
            Option::None => rest,
        }
    }
}

#[via_fn]
proof fn parsed_ids_from_dec(s: Seq<u8>, from: int) {
    if 0 <= from <= s.len() {
        lemma_find_byte_bounds(s, 10, from);
    }
}

/// The workspace ids a query report yields, line by line.
pub open spec fn parsed_ids(s: Seq<u8>) -> Seq<i32> {
    parsed_ids_from(s, 0)
}

/// Read the ids out of a workspace report: each newline-separated line that
/// mentions `"id":` contributes the number after its first colon, if one can
/// be read.
pub fn parse_workspace_ids(report: &Vec<u8>) -> (ids: Vec<i32>)
    ensures
        ids@ == parsed_ids(report@),
{
    let mut ids: Vec<i32> = Vec::new();
    let mut cur: usize = 0;
    let mut done = false;
    while !done
        invariant
            cur <= report@.len(),
            parsed_ids(report@) == ids@ + (if done {
                Seq::<i32>::empty()
            } else {
                parsed_ids_from(report@, cur as int)
            }),
        decreases (if done {
            0int
        } else {
            report@.len() - cur + 1
        }),
    {
        let k = find_b(report, 10, cur);
        let line = sub_vec(report, cur, k);
        let id_opt = line_id_exec(&line);
        let ghost rest = if k >= report@.len() {
            Seq::<i32>::empty()
        } else {
            parsed_ids_from(report@, k + 1)
        };
        proof {
            match line_id(report@.subrange(cur as int, k as int)) {
                Option::Some(v) => {
                    assert(ids@ + (seq![v] + rest) =~= ids@.push(v) + rest);
                },
                Option::None => {},
            }
        }
        match id_opt {
            Option::Some(v) => ids.push(v),
            Option::None => {},
        }
        if k >= report.len() {
            done = true;
        } else {
            cur = k + 1;
        }
    }
    ids
}

/// Smallest positive workspace id that the occupied list misses.
pub fn next_empty_workspace(occupied: &Vec<i32>) -> (id: i32)
    requires
        occupied@.len() < 0x7fff_ffff,
    ensures
        1 <= id,
        !occupied@.contains(id),
        forall|j: int| 1 <= j < id ==> occupied@.contains(#[trigger] (j as i32)),
{
    let mut id: i32 = 1;
    while contains_id(occupied, id)
        invariant
            occupied@.len() < 0x7fff_ffff,
            1 <= id,
            id as int <= occupied@.len() + 1,
            forall|j: int| 1 <= j < id ==> occupied@.contains(#[trigger] (j as i32)),
        decreases occupied@.len() + 1 - id,
    {
        proof {
            lemma_occupied_bound(occupied@, id as int);
        }
        id = id + 1;
    }
    id
}

/// The first `id` positive integers all occur in `s`, so `id` is at most the
/// number of distinct values of `s`, which its length bounds.
proof fn lemma_occupied_bound(s: Seq<i32>, id: int)
    requires
        1 <= id <= 0x7fff_ffff,
        forall|j: int| 1 <= j < id ==> s.contains(#[trigger] (j as i32)),
        s.contains((id as i32)),
    ensures
        id <= s.len(),
{
    broadcast use vstd::seq_lib::seq_to_set_is_finite;

    let ints = s.map_values(|x: i32| x as int);
    assert(ints.len() == s.len());
    assert forall|j: int| 1 <= j < id + 1 implies ints.to_set().contains(j) by {
        assert(s.contains(j as i32));
        let idx = choose|idx: int| 0 <= idx < s.len() && s[idx] == (j as i32);
        assert(ints[idx] == j);
        assert(ints.contains(j));
    }
    assert(set_int_range(1, id + 1).subset_of(ints.to_set()));
    lemma_int_range(1, id + 1);
    ints.lemma_cardinality_of_set();
    lemma_len_subset(set_int_range(1, id + 1), ints.to_set());
}

fn contains_id(v: &Vec<i32>, x: i32) -> (r: bool)
    ensures
        r == v@.contains(x),
{
    let mut i: usize = 0;
    while i < v.len()
        invariant
            i <= v@.len(),
            forall|k: int| 0 <= k < i ==> v@[k] != x,
        decreases v@.len() - i,
    {
        if v[i] == x {
            return true;
        }
        i = i + 1;
    }
    false
}

/// What the workspace resolved from a query report must be: the smallest free
/// positive id of a readable report, the default workspace otherwise.
pub open spec fn resolved_workspace(report: Option<Seq<u8>>, ws: i32) -> bool {
    match report {
        Option::None => ws == DEFAULT_WORKSPACE,
        Option::Some(r) => {
            let ids = parsed_ids(r);
            if ids.len() < 0x7fff_ffff {
                1 <= ws && !ids.contains(ws) && (forall|j: int|
                    1 <= j < ws ==> ids.contains(#[trigger] (j as i32)))
            } else {
                ws == DEFAULT_WORKSPACE
            }
        },
    }
}

/// The bytes of the report a caller handed in, if any.
pub open spec fn report_view(report: Option<&Vec<u8>>) -> Option<Seq<u8>> {
    match report {
        Option::None => Option::None,
        Option::Some(r) => Option::Some(r@),
    }
}

/// Resolve the workspace to launch on: the smallest free positive id when the
/// query succeeded, the default workspace when it failed.
pub fn resolve_workspace(report: Option<&Vec<u8>>) -> (id: i32)
    ensures
        resolved_workspace(report_view(report), id),
{
    match report {
        Option::None => DEFAULT_WORKSPACE,
        Option::Some(r) => {
            let ids = parse_workspace_ids(r);
            if ids.len() < 0x7fff_ffff {
                next_empty_workspace(&ids)
            } else {
                DEFAULT_WORKSPACE
            }
        },
    }
}

} // verus!
