//! The process list: the three orders it can be shown in, the stable sort
//! that puts the processes in that order, and the top of the list.

use vstd::prelude::*;
use crate::text::{chars_of, string_of_range, decimal, push_decimal};
use vstd::string::StringExecFns;

verus! {

broadcast use vstd::seq_lib::group_seq_properties;

/// The order in which the process list is shown.
#[derive(Debug, Clone, Copy, PartialEq, Eq, Structural)]
pub enum ProcessSort {
    /// Highest CPU usage first.
    Cpu,
    /// Largest memory first.
    Memory,
    /// By name, ignoring case.
    Alphabetical,
}

/// What the process list needs to know of one process.
pub struct ProcessInfo {
    /// The process's identifier.
    pub pid: u32,
    /// The process's name.
    pub name: String,
    /// The order key of the process's CPU usage: a larger key is a larger
    /// usage, an equal key an equal usage.
    pub cpu_key: u32,
    /// The process's resident memory, in bytes.
    pub memory: u64,
}

/// The most processes that the list shows.
pub const MAX_SHOWN: usize = 20;

/// The longest name, in characters, that the list shows.
pub const NAME_WIDTH: usize = 25;

/// The lower-case form of a text, as `str::to_lowercase` computes it.
pub uninterp spec fn lowercase_text(s: Seq<char>) -> Seq<char>;

/// Calls `str::to_lowercase`. Trusted: its result is `lowercase_text` of
/// the argument's characters; the Unicode case mapping itself is not stated.
#[verifier::external_body]
fn to_lowercase(s: &str) -> (r: String)
    ensures
        r@ == lowercase_text(s@),
{
    s.to_lowercase()
}

/// Whether text `a` comes strictly before text `b` in the order of `String`:
/// lexicographic by code point (which is the order of the UTF-8 bytes).
pub open spec fn text_less(a: Seq<char>, b: Seq<char>) -> bool
    decreases a.len(),
{
    if a.len() == 0 {
        b.len() > 0
    } else if b.len() == 0 {
        false
    } else if a[0] != b[0] {
        (a[0] as int) < (b[0] as int)
    } else {
        text_less(a.drop_first(), b.drop_first())
    }
}

/// Exactly one of `a < b`, `b < a`, `a == b` holds.
pub proof fn lemma_text_less_trichotomy(a: Seq<char>, b: Seq<char>)
    ensures
        text_less(a, b) || text_less(b, a) || a == b,
        !(text_less(a, b) && text_less(b, a)),
        text_less(a, b) ==> a != b,
    decreases a.len(),
{
    if a.len() > 0 && b.len() > 0 && a[0] == b[0] {
        lemma_text_less_trichotomy(a.drop_first(), b.drop_first());
        if a.drop_first() == b.drop_first() {
            assert(a =~= seq![a[0]] + a.drop_first());
            assert(b =~= seq![b[0]] + b.drop_first());
        }
    } else if a.len() == 0 && b.len() == 0 {
        assert(a =~= b);
    } else if a.len() > 0 && b.len() > 0 {
        assert((a[0] as int) != (b[0] as int));
    }
}

/// The order of texts is transitive.
pub proof fn lemma_text_less_transitive(a: Seq<char>, b: Seq<char>, c: Seq<char>)
    requires
        text_less(a, b),
        text_less(b, c),
    ensures
        text_less(a, c),
    decreases a.len(),
{
    if a.len() > 0 && b.len() > 0 && c.len() > 0 && a[0] == b[0] && b[0] == c[0] {
        lemma_text_less_transitive(a.drop_first(), b.drop_first(), c.drop_first());
    }
}

fn text_less_exec(a: &Vec<char>, b: &Vec<char>) -> (r: bool)
    ensures
        r == text_less(a@, b@),
{
    let mut i: usize = 0;
    while i < a.len() && i < b.len() && a[i] == b[i]
        invariant
            i <= a@.len(),
            i <= b@.len(),
            text_less(a@, b@) == text_less(a@.skip(i as int), b@.skip(i as int)),
        decreases a@.len() - i,
    {
        proof {
            let sa = a@.skip(i as int);
            let sb = b@.skip(i as int);
            assert(sa.drop_first() =~= a@.skip(i + 1));
            assert(sb.drop_first() =~= b@.skip(i + 1));
        }
        i = i + 1;
    }
    proof {
        let sa = a@.skip(i as int);
        let sb = b@.skip(i as int);
        if i < a@.len() {
            assert(sa[0] == a@[i as int]);
        }
        if i < b@.len() {
            assert(sb[0] == b@[i as int]);
        }
    }
    if i == a.len() {
        i < b.len()
    } else if i == b.len() {
        false
    } else {
        a[i] < b[i]
    }
}

/// Whether the text `a` comes strictly before the text `b` (the comparison
/// of two names already in lower case).
pub fn text_before(a: &str, b: &str) -> (r: bool)
    ensures
        r == text_less(a@, b@),
{
    let ca = chars_of(a);
    let cb = chars_of(b);
    text_less_exec(&ca, &cb)
}

/// Whether process `a` is shown strictly before process `b` in the order
/// `sort` (ties keep their earlier order).
pub open spec fn precedes(sort: ProcessSort, a: ProcessInfo, b: ProcessInfo) -> bool {
    match sort {
        ProcessSort::Cpu => a.cpu_key > b.cpu_key,
        ProcessSort::Memory => a.memory > b.memory,
        ProcessSort::Alphabetical => text_less(lowercase_text(a.name@), lowercase_text(b.name@)),
    }
}

/// Whether processes `a` and `b` tie in the order `sort`.
pub open spec fn ties(sort: ProcessSort, a: ProcessInfo, b: ProcessInfo) -> bool {
    match sort {
        ProcessSort::Cpu => a.cpu_key == b.cpu_key,
        ProcessSort::Memory => a.memory == b.memory,
        ProcessSort::Alphabetical => lowercase_text(a.name@) == lowercase_text(b.name@),
    }
}

/// The processes that tie with `y`.
pub open spec fn tying_with(sort: ProcessSort, y: ProcessInfo) -> spec_fn(ProcessInfo) -> bool {
    |x: ProcessInfo| ties(sort, x, y)
}

/// `s` is in the order `sort`: no process precedes one shown before it.
pub open spec fn sorted_by(sort: ProcessSort, s: Seq<ProcessInfo>) -> bool {
    forall|i: int, j: int| 0 <= i < j < s.len() ==> !precedes(sort, #[trigger] s[j], #[trigger] s[i])
}

/// `out` is `inp` sorted stably in the order `sort`: `out` is in order, and
/// the processes of each tie keep the order they had in `inp`.
pub open spec fn stable_sort_of(sort: ProcessSort, out: Seq<ProcessInfo>, inp: Seq<ProcessInfo>) -> bool {
    &&& sorted_by(sort, out)
    &&& forall|y: ProcessInfo| #[trigger] out.filter(tying_with(sort, y)) == inp.filter(tying_with(sort, y))
}

/// In the memory order a process is shown before another exactly when it
/// uses more memory, and in the CPU order exactly when its usage key is
/// larger; in the name order exactly when its lower-case name comes first.
pub proof fn lemma_order_meaning(a: ProcessInfo, b: ProcessInfo)
    ensures
        precedes(ProcessSort::Memory, a, b) <==> a.memory > b.memory,
        precedes(ProcessSort::Cpu, a, b) <==> a.cpu_key > b.cpu_key,
        precedes(ProcessSort::Alphabetical, a, b) <==> text_less(lowercase_text(a.name@), lowercase_text(b.name@)),
        ties(ProcessSort::Memory, a, b) <==> a.memory == b.memory,
        ties(ProcessSort::Cpu, a, b) <==> a.cpu_key == b.cpu_key,
{
}

/// A list in the memory order runs from the largest memory to the smallest,
/// and one in the CPU order from the largest usage key to the smallest.
pub proof fn lemma_sorted_descending(s: Seq<ProcessInfo>)
    ensures
        sorted_by(ProcessSort::Memory, s) ==> forall|i: int, j: int|
            0 <= i < j < s.len() ==> (#[trigger] s[i]).memory >= (#[trigger] s[j]).memory,
        sorted_by(ProcessSort::Cpu, s) ==> forall|i: int, j: int|
            0 <= i < j < s.len() ==> (#[trigger] s[i]).cpu_key >= (#[trigger] s[j]).cpu_key,
{
    assert forall|i: int, j: int| sorted_by(ProcessSort::Memory, s) && 0 <= i < j < s.len()
        implies (#[trigger] s[i]).memory >= (#[trigger] s[j]).memory by {
        lemma_order_meaning(s[j], s[i]);
    }
    assert forall|i: int, j: int| sorted_by(ProcessSort::Cpu, s) && 0 <= i < j < s.len()
        implies (#[trigger] s[i]).cpu_key >= (#[trigger] s[j]).cpu_key by {
        lemma_order_meaning(s[j], s[i]);
    }
}

/// The order of texts is that of a dictionary by code point: a text comes
/// before every longer text it begins, and two texts that first differ at a
/// character are in the order of those characters.
pub proof fn lemma_text_order_meaning(p: Seq<char>, t: Seq<char>, c1: char, c2: char, x: Seq<char>, y: Seq<char>)
    ensures
        t.len() > 0 ==> text_less(p, p + t),
        !text_less(p + t, p),
        (c1 as int) < (c2 as int) ==> text_less(p + seq![c1] + x, p + seq![c2] + y),
    decreases p.len(),
{
    if p.len() > 0 {
        lemma_text_order_meaning(p.drop_first(), t, c1, c2, x, y);
        assert((p + t).drop_first() =~= p.drop_first() + t);
        assert((p + seq![c1] + x).drop_first() =~= p.drop_first() + seq![c1] + x);
        assert((p + seq![c2] + y).drop_first() =~= p.drop_first() + seq![c2] + y);
        assert((p + t)[0] == p[0]);
        assert((p + seq![c1] + x)[0] == p[0]);
        assert((p + seq![c2] + y)[0] == p[0]);
    } else {
        assert(p + t =~= t);
        assert(p + seq![c1] + x =~= seq![c1] + x);
        assert(p + seq![c2] + y =~= seq![c2] + y);
    }
}

/// Every two processes are either in order one way, the other way, or tie,
/// and exactly one of these holds.
pub proof fn lemma_order_total(sort: ProcessSort, a: ProcessInfo, b: ProcessInfo)
    ensures
        precedes(sort, a, b) || precedes(sort, b, a) || ties(sort, a, b),
        !(precedes(sort, a, b) && precedes(sort, b, a)),
        precedes(sort, a, b) ==> !ties(sort, a, b),
        ties(sort, a, a),
{
    lemma_text_less_trichotomy(lowercase_text(a.name@), lowercase_text(b.name@));
}

/// If `x` precedes `a` and `b` does not precede `a`, then `x` precedes `b`.
pub proof fn lemma_order_negative_transitive(sort: ProcessSort, x: ProcessInfo, a: ProcessInfo, b: ProcessInfo)
    requires
        precedes(sort, x, a),
        !precedes(sort, b, a),
    ensures
        precedes(sort, x, b),
{
    if sort == ProcessSort::Alphabetical {
        let (lx, la, lb) = (lowercase_text(x.name@), lowercase_text(a.name@), lowercase_text(b.name@));
        lemma_text_less_trichotomy(la, lb);
        if text_less(la, lb) {
            lemma_text_less_transitive(lx, la, lb);
        }
    }
}

/// A process that precedes another does not tie with anything that ties
/// with it.
proof fn lemma_precedes_not_tying(sort: ProcessSort, x: ProcessInfo, b: ProcessInfo, y: ProcessInfo)
    requires
        precedes(sort, x, b),
        ties(sort, x, y),
    ensures
        !ties(sort, b, y),
{
    lemma_order_total(sort, x, b);
}

fn precedes_exec(sort: ProcessSort, a: &ProcessInfo, la: &Vec<char>, b: &ProcessInfo, lb: &Vec<char>) -> (r: bool)
    requires
        la@ == lowercase_text(a.name@),
        lb@ == lowercase_text(b.name@),
    ensures
        r == precedes(sort, *a, *b),
{
    match sort {
        ProcessSort::Cpu => a.cpu_key > b.cpu_key,
        ProcessSort::Memory => a.memory > b.memory,
        ProcessSort::Alphabetical => text_less_exec(la, lb),
    }
}

/// Inserting `x` into sorted `s` at `pos`, after everything that `x` does not
/// precede and before everything that it does, keeps `s` sorted and adds `x`
/// to the end of its tie.
proof fn lemma_insert_sorted(sort: ProcessSort, s: Seq<ProcessInfo>, x: ProcessInfo, pos: int)
    requires
        sorted_by(sort, s),
        0 <= pos <= s.len(),
        forall|k: int| 0 <= k < pos ==> !precedes(sort, x, #[trigger] s[k]),
        forall|k: int| pos <= k < s.len() ==> precedes(sort, x, #[trigger] s[k]),
    ensures
        sorted_by(sort, s.insert(pos, x)),
        forall|y: ProcessInfo| #[trigger] s.insert(pos, x).filter(tying_with(sort, y))
            == if ties(sort, x, y) { s.filter(tying_with(sort, y)).push(x) } else { s.filter(tying_with(sort, y)) },
{
    let t = s.insert(pos, x);
    s.insert_ensures(pos, x);
    assert forall|i: int, j: int| 0 <= i < j < t.len() implies !precedes(sort, #[trigger] t[j], #[trigger] t[i]) by {
        if j < pos {
            assert(t[i] == s[i] && t[j] == s[j]);
        } else if j == pos {
            assert(t[i] == s[i]);
        } else if i == pos {
            assert(t[j] == s[j - 1]);
            lemma_order_total(sort, x, s[j - 1]);
        } else if i < pos {
            assert(t[i] == s[i] && t[j] == s[j - 1]);
        } else {
            assert(t[i] == s[i - 1] && t[j] == s[j - 1]);
        }
    }
    assert forall|y: ProcessInfo| #[trigger] t.filter(tying_with(sort, y))
        == if ties(sort, x, y) { s.filter(tying_with(sort, y)).push(x) } else { s.filter(tying_with(sort, y)) } by {
        let p = tying_with(sort, y);
        let a = s.subrange(0, pos);
        let b = s.subrange(pos, s.len() as int);
        assert(s =~= a + b);
        assert(t =~= (a.push(x)) + b);
        Seq::filter_distributes_over_add(a.push(x), b, p);
        Seq::filter_distributes_over_add(a, b, p);
        a.lemma_filter_push(x, p);
        if ties(sort, x, y) {
            assert forall|k: int| 0 <= k < b.len() implies !p(#[trigger] b[k]) by {
                assert(b[k] == s[pos + k]);
                lemma_precedes_not_tying(sort, x, b[k], y);
            }
            b.lemma_all_neg_filter_empty(p);
            assert(b.filter(p) =~= Seq::<ProcessInfo>::empty());
            assert(a.filter(p).push(x) + b.filter(p) =~= (a.filter(p) + b.filter(p)).push(x));
        }
    }
}

/// Sorts the processes stably in the order `sort`, as `slice::sort_by`
/// does with the comparison of that order.
pub fn sort_processes(processes: &mut Vec<ProcessInfo>, sort: ProcessSort)
    ensures
        stable_sort_of(sort, final(processes)@, old(processes)@),
{
    let ghost inp = processes@;
    let n = processes.len();
    let mut out: Vec<ProcessInfo> = Vec::new();
    let mut keys: Vec<Vec<char>> = Vec::new();
    let mut i: usize = 0;
    while i < n
        invariant
            n == inp.len(),
            i <= n,
            processes@ == inp.skip(i as int),
            keys@.len() == out@.len(),
            forall|k: int| 0 <= k < keys@.len() ==> #[trigger] keys@[k]@ == lowercase_text(out@[k].name@),
            sorted_by(sort, out@),
            forall|y: ProcessInfo| #[trigger] out@.filter(tying_with(sort, y))
                == inp.take(i as int).filter(tying_with(sort, y)),
        decreases n - i,
    {
        let x = processes.remove(0);
        assert(x == inp[i as int]);
        let lx = chars_of(to_lowercase(x.name.as_str()).as_str());
        let mut pos: usize = 0;
        while pos < out.len() && !precedes_exec(sort, &x, &lx, &out[pos], &keys[pos])
            invariant
                pos <= out@.len(),
                keys@.len() == out@.len(),
                lx@ == lowercase_text(x.name@),
                forall|k: int| 0 <= k < keys@.len() ==> #[trigger] keys@[k]@ == lowercase_text(out@[k].name@),
                forall|k: int| 0 <= k < pos ==> !precedes(sort, x, #[trigger] out@[k]),
            decreases out@.len() - pos,
        {
            pos = pos + 1;
        }
        proof {
            if pos < out@.len() {
                assert forall|k: int| pos <= k < out@.len() implies precedes(sort, x, #[trigger] out@[k]) by {
                    if k > pos {
                        assert(!precedes(sort, out@[k], out@[pos as int]));
                        lemma_order_negative_transitive(sort, x, out@[pos as int], out@[k]);
                    }
                }
            }
            lemma_insert_sorted(sort, out@, x, pos as int);
            assert(inp.take(i + 1) =~= inp.take(i as int).push(x));
            assert forall|y: ProcessInfo| #[trigger] inp.take(i + 1).filter(tying_with(sort, y))
                == if ties(sort, x, y) { inp.take(i as int).filter(tying_with(sort, y)).push(x) }
                   else { inp.take(i as int).filter(tying_with(sort, y)) } by {
                inp.take(i as int).lemma_filter_push(x, tying_with(sort, y));
            }
        }
        let ghost old_keys = keys@;
        let ghost old_out = out@;
        out.insert(pos, x);
        keys.insert(pos, lx);
        proof {
            old_out.insert_ensures(pos as int, x);
            old_keys.insert_ensures(pos as int, lx);
            assert forall|k: int| 0 <= k < keys@.len() implies #[trigger] keys@[k]@ == lowercase_text(out@[k].name@) by {
                if k < pos {
                    assert(keys@[k] == old_keys[k] && out@[k] == old_out[k]);
                } else if k > pos {
                    assert(keys@[k] == old_keys[k - 1] && out@[k] == old_out[k - 1]);
                }
            }
            assert(processes@ =~= inp.skip(i + 1));
        }
        i = i + 1;
    }
    assert(inp.take(n as int) =~= inp);
    *processes = out;
}


proof fn lemma_filter_keeps_count(s: Seq<ProcessInfo>, p: spec_fn(ProcessInfo) -> bool, x: ProcessInfo)
    requires
        p(x),
    ensures
        s.filter(p).to_multiset().count(x) == s.to_multiset().count(x),
    decreases s.len(),
{
    if s.len() > 0 {
        let t = s.drop_last();
        let e = s.last();
        lemma_filter_keeps_count(t, p, x);
        assert(t.push(e) =~= s);
        t.lemma_filter_push(e, p);
        t.to_multiset_ensures();
        t.filter(p).to_multiset_ensures();
    } else {
        assert(s.filter(p) =~= Seq::<ProcessInfo>::empty());
    }
}

/// A stable sort is a permutation: it holds each process as often as the
/// unsorted list does.
pub proof fn lemma_stable_sort_is_permutation(sort: ProcessSort, out: Seq<ProcessInfo>, inp: Seq<ProcessInfo>)
    requires
        stable_sort_of(sort, out, inp),
    ensures
        out.to_multiset() == inp.to_multiset(),
        out.len() == inp.len(),
{
    assert forall|x: ProcessInfo| out.to_multiset().count(x) == inp.to_multiset().count(x) by {
        let p = tying_with(sort, x);
        lemma_order_total(sort, x, x);
        lemma_filter_keeps_count(out, p, x);
        lemma_filter_keeps_count(inp, p, x);
        assert(out.filter(p) == inp.filter(p));
    }
    assert(out.to_multiset() =~= inp.to_multiset());
    out.to_multiset_ensures();
    inp.to_multiset_ensures();
}

proof fn lemma_sorted_prefix(sort: ProcessSort, a: Seq<ProcessInfo>)
    requires
        sorted_by(sort, a),
        a.len() > 0,
    ensures
        sorted_by(sort, a.drop_last()),
{
    let t = a.drop_last();
    assert forall|i: int, j: int| 0 <= i < j < t.len() implies !precedes(sort, #[trigger] t[j], #[trigger] t[i]) by {
        assert(t[i] == a[i] && t[j] == a[j]);
    }
}

proof fn lemma_same_sorted(sort: ProcessSort, a: Seq<ProcessInfo>, b: Seq<ProcessInfo>)
    requires
        sorted_by(sort, a),
        sorted_by(sort, b),
        forall|y: ProcessInfo| #[trigger] a.filter(tying_with(sort, y)) == b.filter(tying_with(sort, y)),
    ensures
        a == b,
    decreases a.len(),
{
    if a.len() == 0 || b.len() == 0 {
        if b.len() > 0 {
            let y = b[0];
            lemma_order_total(sort, y, y);
            b.lemma_filter_contains(tying_with(sort, y), 0);
            assert(a.filter(tying_with(sort, y)).len() == 0);
        } else if a.len() > 0 {
            let y = a[0];
            lemma_order_total(sort, y, y);
            a.lemma_filter_contains(tying_with(sort, y), 0);
            assert(b.filter(tying_with(sort, y)).len() == 0);
        }
        assert(a =~= b);
    } else {
        let x = a.last();
        let z = b.last();
        let a1 = a.drop_last();
        let b1 = b.drop_last();
        assert(a1.push(x) =~= a);
        assert(b1.push(z) =~= b);
        lemma_order_total(sort, x, x);
        lemma_order_total(sort, z, z);
        lemma_order_total(sort, x, z);
        // z occurs in a, and x occurs in b
        b.lemma_filter_contains(tying_with(sort, z), b.len() - 1);
        a.filter(tying_with(sort, z)).lemma_filter_contains_rev(tying_with(sort, z), z);
        assert(a.filter(tying_with(sort, z)).contains(z));
        a.lemma_filter_contains_rev(tying_with(sort, z), z);
        let k = choose|k: int| 0 <= k < a.len() && a[k] == z;
        a.lemma_filter_contains(tying_with(sort, x), a.len() - 1);
        b.lemma_filter_contains_rev(tying_with(sort, x), x);
        let m = choose|m: int| 0 <= m < b.len() && b[m] == x;
        if precedes(sort, x, z) {
            if k < a.len() - 1 {
                assert(!precedes(sort, a[a.len() - 1], a[k]));
            }
        }
        if precedes(sort, z, x) {
            if m < b.len() - 1 {
                assert(!precedes(sort, b[b.len() - 1], b[m]));
            }
        }
        assert(ties(sort, x, z));
        assert(tying_with(sort, x) =~= tying_with(sort, z));
        a1.lemma_filter_push(x, tying_with(sort, x));
        b1.lemma_filter_push(z, tying_with(sort, x));
        assert(a.filter(tying_with(sort, x)).last() == x);
        assert(b.filter(tying_with(sort, z)).last() == z);
        assert(x == z);
        assert forall|y: ProcessInfo| #[trigger] a1.filter(tying_with(sort, y)) == b1.filter(tying_with(sort, y)) by {
            let p = tying_with(sort, y);
            a1.lemma_filter_push(x, p);
            b1.lemma_filter_push(x, p);
            assert(a.filter(p) == b.filter(p));
            if p(x) {
                assert(a1.filter(p) =~= a.filter(p).drop_last());
                assert(b1.filter(p) =~= b.filter(p).drop_last());
            }
        }
        lemma_sorted_prefix(sort, a);
        lemma_sorted_prefix(sort, b);
        lemma_same_sorted(sort, a1, b1);
    }
}

/// A stable sort is unique: two stable sorts of the same list are the same.
pub proof fn lemma_stable_sort_unique(sort: ProcessSort, a: Seq<ProcessInfo>, b: Seq<ProcessInfo>, inp: Seq<ProcessInfo>)
    requires
        stable_sort_of(sort, a, inp),
        stable_sort_of(sort, b, inp),
    ensures
        a == b,
{
    assert forall|y: ProcessInfo| #[trigger] a.filter(tying_with(sort, y)) == b.filter(tying_with(sort, y)) by {
        assert(a.filter(tying_with(sort, y)) == inp.filter(tying_with(sort, y)));
        assert(b.filter(tying_with(sort, y)) == inp.filter(tying_with(sort, y)));
    }
    lemma_same_sorted(sort, a, b);
}

/// A list already in order is its own stable sort; so sorting it again
/// leaves it as it is.
pub proof fn lemma_sorted_is_fixed(sort: ProcessSort, s: Seq<ProcessInfo>, out: Seq<ProcessInfo>)
    requires
        sorted_by(sort, s),
        stable_sort_of(sort, out, s),
    ensures
        out == s,
{
    lemma_stable_sort_unique(sort, out, s, s);
}

/// The processes that the list shows, in the order `sort`: the processes
/// sorted stably, then cut to the first `MAX_SHOWN`.
pub fn top_processes(processes: Vec<ProcessInfo>, sort: ProcessSort) -> (r: Vec<ProcessInfo>)
    ensures
        r@.len() == if processes@.len() < MAX_SHOWN { processes@.len() } else { MAX_SHOWN as nat },
        exists|full: Seq<ProcessInfo>| stable_sort_of(sort, full, processes@) && r@ == full.take(r@.len() as int),
        forall|full: Seq<ProcessInfo>| stable_sort_of(sort, full, processes@) ==> r@ == full.take(r@.len() as int),
{
    let mut v = processes;
    sort_processes(&mut v, sort);
    let ghost full = v@;
    proof {
        lemma_stable_sort_is_permutation(sort, full, processes@);
    }
    v.truncate(MAX_SHOWN);
    assert(v@ =~= full.take(v@.len() as int));
    assert forall|other: Seq<ProcessInfo>| stable_sort_of(sort, other, processes@) implies v@ == other.take(v@.len() as int) by {
        lemma_stable_sort_unique(sort, other, full, processes@);
    }
    v
}

/// The name as the list shows it: its first `NAME_WIDTH` characters.
pub fn shown_name(name: &str) -> (r: String)
    ensures
        r@ == if name@.len() <= NAME_WIDTH { name@ } else { name@.take(NAME_WIDTH as int) },
{
    let cs = chars_of(name);
    let end = if cs.len() <= NAME_WIDTH { cs.len() } else { NAME_WIDTH };
    let r = string_of_range(&cs, 0, end);
    assert(r@ =~= if name@.len() <= NAME_WIDTH { name@ } else { name@.take(NAME_WIDTH as int) });
    r
}

impl ProcessSort {
    /// The name of the order, as the list's caption shows it.
    pub open spec fn label_text(self) -> Seq<char> {
        match self {
            ProcessSort::Cpu => "CPU %"@,
            ProcessSort::Memory => "Memory"@,
            ProcessSort::Alphabetical => "Name"@,
        }
    }

    /// The name of the order, as the list's caption shows it.
    pub fn label(&self) -> (r: String)
        ensures
            r@ == self.label_text(),
    {
        match self {
            ProcessSort::Cpu => String::from_str("CPU %"),
            ProcessSort::Memory => String::from_str("Memory"),
            ProcessSort::Alphabetical => String::from_str("Name"),
        }
    }
}

/// The caption above the list: `Showing {shown} of {total} processes (sorted by {order})`.
pub open spec fn summary_text(shown: nat, total: nat, sort: ProcessSort) -> Seq<char> {
    "Showing "@ + decimal(shown) + " of "@ + decimal(total) + " processes (sorted by "@
        + sort.label_text() + ")"@
}

/// The caption above the process list.
pub fn process_summary(shown: usize, total: usize, sort: ProcessSort) -> (r: String)
    ensures
        r@ == summary_text(shown as nat, total as nat, sort),
{
    let mut r = String::from_str("Showing ");
    push_decimal(&mut r, shown as u64);
    r.append(" of ");
    push_decimal(&mut r, total as u64);
    r.append(" processes (sorted by ");
    let label = sort.label();
    r.append(label.as_str());
    r.append(")");
    r
}

} // verus!
