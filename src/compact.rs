//! Compact notation for sets of message identifiers: runs of consecutive
//! values collapse to `first:last`, single values stay bare.
use vstd::prelude::*;
use vstd::relations::{sorted_by, total_ordering};
use vstd::seq_lib::lemma_sorted_unique;
use crate::text::{decimal, decimal_string, lemma_decimal_parses_back, parse_decimal};

verus! {

/// Ascending order on identifiers.
pub open spec fn id_leq() -> spec_fn(u32, u32) -> bool {
    |a: u32, b: u32| a <= b
}

/// The identifiers in ascending order.
pub open spec fn ascending(ids: Seq<u32>) -> Seq<u32> {
    ids.sort_by(id_leq())
}

/// The runs of consecutive values of `s`, each as `(first, last)`, read from
/// left to right: a value one above the end of the current run extends it,
/// any other value starts a new run.
pub open spec fn runs(s: Seq<u32>) -> Seq<(u32, u32)>
    decreases s.len(),
{
    if s.len() == 0 {
        seq![]
    } else {
        let prev = runs(s.drop_last());
        let x = s.last();
        if prev.len() > 0 && prev.last().1 as int + 1 == x as int {
            prev.update(prev.len() - 1, (prev.last().0, x))
        } else {
            prev.push((x, x))
        }
    }
}

/// One run as text: `first` alone, or `first:last`.
pub open spec fn run_text(r: (u32, u32)) -> Seq<char> {
    if r.0 == r.1 {
        decimal(r.0 as nat)
    } else {
        decimal(r.0 as nat) + seq![':'] + decimal(r.1 as nat)
    }
}

/// The runs as text, in order, with `sep` between two neighbours.
pub open spec fn joined(rs: Seq<(u32, u32)>, sep: Seq<char>) -> Seq<char>
    decreases rs.len(),
{
    if rs.len() == 0 {
        seq![]
    } else if rs.len() == 1 {
        run_text(rs[0])
    } else {
        joined(rs.drop_last(), sep) + sep + run_text(rs.last())
    }
}

/// The compact notation of a set of identifiers, with separator `sep`.
pub open spec fn compact_text(ids: Seq<u32>, sep: Seq<char>) -> Seq<char> {
    joined(runs(ascending(ids)), sep)
}

/// `x` lies within the run `r`.
pub open spec fn in_run(r: (u32, u32), x: u32) -> bool {
    r.0 <= x <= r.1
}

/// `x` lies within one of the runs.
pub open spec fn covered(rs: Seq<(u32, u32)>, x: u32) -> bool {
    exists|i: int| 0 <= i < rs.len() && #[trigger] in_run(rs[i], x)
}

pub open spec fn strictly_increasing(s: Seq<u32>) -> bool {
    forall|i: int, j: int| 0 <= i < j < s.len() ==> s[i] < s[j]
}

proof fn lemma_id_leq_total()
    ensures
        total_ordering(id_leq()),
{
}

/// Relies on `slice::sort`: afterwards the vector holds the same values,
/// in ascending order.
#[verifier::external_body]
fn sort_ascending(v: &mut Vec<u32>)
    ensures
        final(v)@.to_multiset() == old(v)@.to_multiset(),
        sorted_by(final(v)@, id_leq()),
{
    v.sort();
}

fn collect_runs(v: &Vec<u32>) -> (r: Vec<(u32, u32)>)
    ensures
        r@ == runs(v@),
{
    let mut out: Vec<(u32, u32)> = Vec::new();
    let mut i: usize = 0;
    while i < v.len()
        invariant
            i <= v.len(),
            out@ == runs(v@.take(i as int)),
        decreases v.len() - i,
    {
        assert(v@.take(i as int + 1).drop_last() == v@.take(i as int));
        let x = v[i];
        let n = out.len();
        if n > 0 && out[n - 1].1 < x && x - out[n - 1].1 == 1 {
            let first = out[n - 1].0;
            out.set(n - 1, (first, x));
        } else {
            out.push((x, x));
        }
        i += 1;
    }
    assert(v@.take(v.len() as int) == v@);
    out
}

fn run_string(r: (u32, u32)) -> (s: String)
    ensures
        s@ == run_text(r),
{
    let mut s = decimal_string(r.0);
    if r.0 != r.1 {
        s.append(":");
        let t = decimal_string(r.1);
        s.append(t.as_str());
        proof {
            reveal_strlit(":");
        }
    }
    s
}

fn render_runs(rs: &Vec<(u32, u32)>, sep: &str) -> (r: String)
    ensures
        r@ == joined(rs@, sep@),
{
    let mut out = String::new();
    let mut i: usize = 0;
    while i < rs.len()
        invariant
            i <= rs.len(),
            out@ == joined(rs@.take(i as int), sep@),
        decreases rs.len() - i,
    {
        assert(rs@.take(i as int + 1).drop_last() == rs@.take(i as int));
        if i > 0 {
            out.append(sep);
        }
        let t = run_string(rs[i]);
        out.append(t.as_str());
        i += 1;
    }
    assert(rs@.take(rs.len() as int) == rs@);
    out
}

/// Writes a set of identifiers in compact notation: ascending runs of
/// consecutive values, each as `first:last` (or `first` alone), separated
/// by `sep`. An empty input gives the empty string.
pub fn compact_ids(ids: Vec<u32>, sep: &str) -> (r: String)
    ensures
        r@ == compact_text(ids@, sep@),
        ids@.len() == 0 ==> r@.len() == 0,
{
    let ghost orig = ids@;
    let mut v = ids;
    sort_ascending(&mut v);
    proof {
        lemma_id_leq_total();
        orig.lemma_sort_by_ensures(id_leq());
        lemma_sorted_unique(v@, ascending(orig), id_leq());
        v@.to_multiset_ensures();
        orig.to_multiset_ensures();
    }
    let rs = collect_runs(&v);
    render_runs(&rs, sep)
}

#[verifier::rlimit(40)]
proof fn lemma_runs_of_increasing(s: Seq<u32>)
    requires
        strictly_increasing(s),
    ensures
        s.len() > 0 ==> runs(s).len() > 0 && runs(s).last().1 == s.last(),
        forall|i: int| 0 <= i < runs(s).len() ==> runs(s)[i].0 <= runs(s)[i].1,
        forall|i: int|
            0 <= i < runs(s).len() - 1 ==> runs(s)[i].1 as int + 1 < runs(s)[i + 1].0 as int,
        forall|i: int| 0 <= i < runs(s).len() ==> runs(s)[i].1 <= s.last(),
        forall|x: u32| s.contains(x) <==> covered(runs(s), x),
    decreases s.len(),
{
    if s.len() > 0 {
        let p = s.drop_last();
        let x = s.last();
        assert(strictly_increasing(p));
        lemma_runs_of_increasing(p);
        let prev = runs(p);
        let rs = runs(s);
        if p.len() > 0 {
            assert(p.last() < x);
        }
        assert forall|y: u32| s.contains(y) <==> covered(rs, y) by {
            if s.contains(y) {
                if y == x {
                    assert(in_run(rs[rs.len() - 1], y));
                } else {
                    let k = choose|k: int| 0 <= k < s.len() && s[k] == y;
                    assert(p[k] == y);
                    assert(p.contains(y));
                    assert(covered(prev, y));
                    let i = choose|i: int| 0 <= i < prev.len() && #[trigger] in_run(prev[i], y);
                    assert(in_run(rs[i], y));
                }
            }
            if covered(rs, y) {
                let i = choose|i: int| 0 <= i < rs.len() && #[trigger] in_run(rs[i], y);
                if y == x {
                    assert(s[s.len() - 1] == y);
                    assert(s.contains(y));
                } else if i < prev.len() {
                    if i == prev.len() - 1 && y > prev[i].1 {
                        assert(false);
                    }
                    assert(in_run(prev[i], y));
                    assert(covered(prev, y));
                    assert(p.contains(y));
                    let k = choose|k: int| 0 <= k < p.len() && p[k] == y;
                    assert(s[k] == y);
                    assert(s.contains(y));
                }
            }
        }
    }
}

/// The runs are minimal: for identifiers without repetition, the runs that
/// `compact_text` renders ascend, never touch or overlap (so no two could
/// merge), are never empty, and together hold exactly the input's values.
pub proof fn lemma_compact_covers_exactly(ids: Seq<u32>)
    requires
        ids.no_duplicates(),
    ensures
        forall|x: u32| ids.contains(x) <==> covered(runs(ascending(ids)), x),
        forall|i: int|
            0 <= i < runs(ascending(ids)).len() ==> runs(ascending(ids))[i].0
                <= runs(ascending(ids))[i].1,
        forall|i: int|
            0 <= i < runs(ascending(ids)).len() - 1 ==> runs(ascending(ids))[i].1 as int + 1
                < runs(ascending(ids))[i + 1].0 as int,
{
    let s = ascending(ids);
    lemma_id_leq_total();
    ids.lemma_sort_by_ensures(id_leq());
    ids.to_multiset_ensures();
    s.to_multiset_ensures();
    ids.lemma_multiset_has_no_duplicates();
    s.lemma_multiset_has_no_duplicates_conv();
    assert forall|i: int, j: int| 0 <= i < j < s.len() implies s[i] < s[j] by {
        assert(id_leq()(s[i], s[j]));
    }
    lemma_runs_of_increasing(s);
    assert forall|x: u32| ids.contains(x) <==> s.contains(x) by {
        assert(ids.to_multiset().count(x) == s.to_multiset().count(x));
    }
}

/// The notation depends on the set alone: two inputs that hold the same
/// values, in any order, are written alike.
pub proof fn lemma_compact_order_independent(a: Seq<u32>, b: Seq<u32>, sep: Seq<char>)
    requires
        a.to_multiset() == b.to_multiset(),
    ensures
        compact_text(a, sep) == compact_text(b, sep),
{
    lemma_id_leq_total();
    a.lemma_sort_by_ensures(id_leq());
    b.lemma_sort_by_ensures(id_leq());
    lemma_sorted_unique(ascending(a), ascending(b), id_leq());
}

/// Where `c` last occurs in `t`, or -1.
pub open spec fn last_index_of(t: Seq<char>, c: char) -> int
    decreases t.len(),
{
    if t.len() == 0 {
        -1
    } else if t.last() == c {
        t.len() - 1
    } else {
        last_index_of(t.drop_last(), c)
    }
}

/// Reads one run: `a:b`, or `a` alone for the run from `a` to `a`.
pub open spec fn read_run(t: Seq<char>) -> (nat, nat) {
    let k = last_index_of(t, ':');
    if 0 <= k < t.len() {
        (parse_decimal(t.take(k)), parse_decimal(t.skip(k + 1)))
    } else {
        (parse_decimal(t), parse_decimal(t))
    }
}

/// Reads comma-separated runs, in order.
pub open spec fn read_runs(t: Seq<char>) -> Seq<(nat, nat)>
    decreases t.len(),
{
    let k = last_index_of(t, ',');
    if t.len() == 0 {
        seq![]
    } else if 0 <= k < t.len() {
        read_runs(t.take(k)).push(read_run(t.skip(k + 1)))
    } else {
        seq![read_run(t)]
    }
}

/// The set of values that comma-separated runs denote.
pub open spec fn denotes(t: Seq<char>, x: int) -> bool {
    exists|i: int|
        0 <= i < read_runs(t).len() && read_runs(t)[i].0 <= x && x <= #[trigger] read_runs(t)[i].1
}

proof fn lemma_last_index_after(a: Seq<char>, c: char, b: Seq<char>)
    requires
        !b.contains(c),
    ensures
        last_index_of(a + seq![c] + b, c) == a.len(),
        last_index_of(b, c) == -1,
    decreases b.len(),
{
    let t = a + seq![c] + b;
    if b.len() > 0 {
        assert(t.drop_last() == a + seq![c] + b.drop_last());
        assert(b[b.len() - 1] == b.last());
        assert forall|i: int| 0 <= i < b.drop_last().len() implies b.drop_last()[i] != c by {
            assert(b[i] == b.drop_last()[i]);
        }
        lemma_last_index_after(a, c, b.drop_last());
    } else {
        assert(t.last() == c);
    }
}

proof fn lemma_read_run_text(r: (u32, u32))
    ensures
        read_run(run_text(r)) == (r.0 as nat, r.1 as nat),
        !run_text(r).contains(','),
        run_text(r).len() > 0,
{
    lemma_decimal_parses_back(r.0 as nat);
    lemma_decimal_parses_back(r.1 as nat);
    let a = decimal(r.0 as nat);
    let b = decimal(r.1 as nat);
    if r.0 == r.1 {
        lemma_last_index_after(seq![], ':', a);
    } else {
        let t = a + seq![':'] + b;
        lemma_last_index_after(a, ':', b);
        assert(t.take(a.len() as int) =~= a);
        assert(t.skip(a.len() as int + 1) =~= b);
        if t.contains(',') {
            let i = choose|i: int| 0 <= i < t.len() && t[i] == ',';
            if i < a.len() {
                assert(a[i] == ',');
            } else if i > a.len() {
                assert(b[i - a.len() - 1] == ',');
            }
        }
    }
}

proof fn lemma_read_joined(rs: Seq<(u32, u32)>)
    ensures
        read_runs(joined(rs, seq![','])) == rs.map_values(|r: (u32, u32)| (r.0 as nat, r.1 as nat)),
    decreases rs.len(),
{
    let sep = seq![','];
    let t = joined(rs, sep);
    if rs.len() == 1 {
        lemma_read_run_text(rs[0]);
        lemma_last_index_after(seq![], ',', t);
    } else if rs.len() > 1 {
        let a = joined(rs.drop_last(), sep);
        let b = run_text(rs.last());
        lemma_read_run_text(rs.last());
        lemma_last_index_after(a, ',', b);
        assert(t.take(a.len() as int) =~= a);
        assert(t.skip(a.len() as int + 1) =~= b);
        lemma_read_joined(rs.drop_last());
    }
    assert(read_runs(t) =~= rs.map_values(|r: (u32, u32)| (r.0 as nat, r.1 as nat)));
}

/// Decoding the compact notation gives back the input set: for identifiers
/// without repetition, the comma-separated runs of `compact_text` denote
/// exactly the input's values.
pub proof fn lemma_compact_decodes(ids: Seq<u32>)
    requires
        ids.no_duplicates(),
    ensures
        forall|x: u32| ids.contains(x) <==> denotes(compact_text(ids, seq![',']), x as int),
{
    let rs = runs(ascending(ids));
    let t = compact_text(ids, seq![',']);
    lemma_compact_covers_exactly(ids);
    lemma_read_joined(rs);
    assert forall|x: u32| ids.contains(x) <==> denotes(t, x as int) by {
        if ids.contains(x) {
            let i = choose|i: int| 0 <= i < rs.len() && #[trigger] in_run(rs[i], x);
            assert(read_runs(t)[i] == (rs[i].0 as nat, rs[i].1 as nat));
        }
        if denotes(t, x as int) {
            let i = choose|i: int|
                0 <= i < read_runs(t).len() && read_runs(t)[i].0 <= x && x
                    <= #[trigger] read_runs(t)[i].1;
            assert(in_run(rs[i], x));
        }
    }
}

} // verus!
