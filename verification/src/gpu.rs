//! The graphics card's report: one line of comma-separated fields (name,
//! utilization, memory used, memory total), as `nvidia-smi` prints it with
//! `--query-gpu=name,utilization.gpu,memory.used,memory.total` and
//! `--format=csv,noheader,nounits`.

use vstd::prelude::*;
use crate::text::{chars_of, string_of_range, lines, next_line, next_piece, split_on, trim, trim_range, TrimSet,
    parse_u64, parse_u64_text, decimal, push_decimal, digit_value, is_white_space, trim_start, trim_end,
    lemma_decimal_digits, lemma_find_char_after, lemma_split_join, lemma_split_single};
use vstd::string::StringExecFns;

verus! {

/// What one report gives of the graphics card.
pub struct GpuReading {
    /// The card's name.
    pub name: String,
    /// The utilization field as text (a percentage, which may have a
    /// fractional part).
    pub usage_text: String,
    /// Memory in use, in MiB; 0 when the field is not a number.
    pub memory_used: u64,
    /// Memory in all, in MiB; 0 when the field is not a number.
    pub memory_total: u64,
}

/// The fields of the report's first line, when there is a first line and it
/// has at least four fields.
pub open spec fn report_fields(out: Seq<char>) -> Option<Seq<Seq<char>>> {
    let ls = lines(out);
    if ls.len() > 0 && split_on(ls[0], ',').len() >= 4 {
        Some(split_on(ls[0], ','))
    } else {
        None
    }
}

/// A field of the report without surrounding white space.
pub open spec fn field(parts: Seq<Seq<char>>, i: int) -> Seq<char> {
    trim(parts[i], TrimSet::Whitespace)
}

/// What a report says: none without four fields on its first line; else the
/// trimmed name and utilization, and the memory fields as numbers (0 where a
/// field is not one).
pub open spec fn reading_matches(out: Seq<char>, r: Option<GpuReading>) -> bool {
    match report_fields(out) {
        None => r is None,
        Some(parts) => match r {
            None => false,
            Some(g) => {
                &&& g.name@ == field(parts, 0)
                &&& g.usage_text@ == field(parts, 1)
                &&& g.memory_used == parse_u64_text(field(parts, 2)).unwrap_or(0)
                &&& g.memory_total == parse_u64_text(field(parts, 3)).unwrap_or(0)
            },
        },
    }
}

fn trimmed_string(cs: &Vec<char>, from: usize, to: usize) -> (r: String)
    requires
        from <= to <= cs@.len(),
    ensures
        r@ == trim(cs@.subrange(from as int, to as int), TrimSet::Whitespace),
{
    let (a, b) = trim_range(cs, from, to, TrimSet::Whitespace);
    string_of_range(cs, a, b)
}

fn trimmed_number(cs: &Vec<char>, from: usize, to: usize) -> (r: u64)
    requires
        from <= to <= cs@.len(),
    ensures
        r == parse_u64_text(trim(cs@.subrange(from as int, to as int), TrimSet::Whitespace)).unwrap_or(0),
{
    let (a, b) = trim_range(cs, from, to, TrimSet::Whitespace);
    match parse_u64(cs, a, b) {
        Some(v) => v,
        None => 0,
    }
}

/// Reads the graphics card's report.
pub fn parse_gpu_output(stdout: &str) -> (r: Option<GpuReading>)
    ensures
        reading_matches(stdout@, r),
{
    let cs = chars_of(stdout);
    let n = cs.len();
    assert(cs@.subrange(0, n as int) =~= stdout@);
    if n == 0 {
        assert(lines(stdout@) =~= Seq::<Seq<char>>::empty());
        return None;
    }
    let (e, _next) = next_line(&cs, 0, n);
    let ghost line = cs@.subrange(0, e as int);
    assert(lines(stdout@)[0] == line);
    let p0 = next_piece(&cs, 0, e, ',');
    if p0 == e {
        return None;
    }
    let p1 = next_piece(&cs, p0 + 1, e, ',');
    if p1 == e {
        assert(split_on(line, ',').len() == 2);
        return None;
    }
    let p2 = next_piece(&cs, p1 + 1, e, ',');
    if p2 == e {
        assert(split_on(line, ',').len() == 3);
        return None;
    }
    let p3 = next_piece(&cs, p2 + 1, e, ',');
    let ghost parts = split_on(line, ',');
    assert(parts.len() >= 4);
    assert(parts[0] == cs@.subrange(0, p0 as int));
    assert(parts[1] == cs@.subrange(p0 + 1, p1 as int));
    assert(parts[2] == cs@.subrange(p1 + 1, p2 as int));
    assert(parts[3] == cs@.subrange(p2 + 1, p3 as int));
    let name = trimmed_string(&cs, 0, p0);
    let usage_text = trimmed_string(&cs, p0 + 1, p1);
    let memory_used = trimmed_number(&cs, p1 + 1, p2);
    let memory_total = trimmed_number(&cs, p2 + 1, p3);
    Some(GpuReading { name, usage_text, memory_used, memory_total })
}

/// The memory line of the graphics card: `{used} / {total} MB`.
pub open spec fn gpu_memory_text(used: nat, total: nat) -> Seq<char> {
    decimal(used) + " / "@ + decimal(total) + " MB"@
}

/// Renders the graphics card's memory line.
pub fn gpu_memory_label(used: u64, total: u64) -> (r: String)
    ensures
        r@ == gpu_memory_text(used as nat, total as nat),
{
    let mut r = String::new();
    push_decimal(&mut r, used);
    r.append(" / ");
    push_decimal(&mut r, total);
    r.append(" MB");
    r
}


/// Whether a field's text holds neither a comma nor a line break.
pub open spec fn plain_field(t: Seq<char>) -> bool {
    forall|i: int| 0 <= i < t.len() ==> t[i] != ',' && t[i] != '\n'
}

/// The report line that `nvidia-smi` prints for a card named `name` at
/// utilization `usage` with `used` of `total` MiB of memory.
pub open spec fn report_line(name: Seq<char>, usage: Seq<char>, used: nat, total: nat) -> Seq<char> {
    name + seq![','] + (seq![' '] + usage + seq![','] + (seq![' '] + decimal(used) + seq![','] + (seq![' ']
        + decimal(total)))) + seq!['\n']
}

proof fn lemma_decimal_plain(n: nat)
    ensures
        plain_field(decimal(n)),
        decimal(n).len() > 0,
        !is_white_space(decimal(n)[0]),
        !is_white_space(decimal(n).last()),
        decimal(n).last() != '\r',
{
    lemma_decimal_digits(n);
    let d = decimal(n);
    assert forall|i: int| 0 <= i < d.len() implies d[i] != ',' && d[i] != '\n' by {
        assert(digit_value(d[i]) is Some);
    }
    assert(digit_value(d[0]) is Some);
    assert(digit_value(d[d.len() - 1]) is Some);
}

proof fn lemma_trim_padded_number(n: nat)
    ensures
        trim(seq![' '] + decimal(n), TrimSet::Whitespace) == decimal(n),
{
    lemma_decimal_plain(n);
    let d = decimal(n);
    let s = seq![' '] + d;
    assert(s.drop_first() =~= d);
    assert(is_white_space(' '));
    assert(trim_start(s, TrimSet::Whitespace) == trim_start(d, TrimSet::Whitespace));
    assert(trim_start(d, TrimSet::Whitespace) == d);
    assert(trim_end(d, TrimSet::Whitespace) == d);
}

/// A report whose first line is that of a card named `name` at utilization
/// `usage` (neither with a comma or line break) using `used` of `total` MiB
/// is read as exactly that card: its trimmed name and utilization, and the
/// two memory numbers in full.
pub proof fn lemma_report_read(name: Seq<char>, usage: Seq<char>, used: u64, total: u64, r: Option<GpuReading>)
    requires
        plain_field(name),
        plain_field(usage),
        reading_matches(report_line(name, usage, used as nat, total as nat), r),
    ensures
        r is Some,
        r->0.name@ == trim(name, TrimSet::Whitespace),
        r->0.usage_text@ == trim(seq![' '] + usage, TrimSet::Whitespace),
        r->0.memory_used == used,
        r->0.memory_total == total,
{
    let dv = decimal(used as nat);
    let dw = decimal(total as nat);
    lemma_decimal_plain(used as nat);
    lemma_decimal_plain(total as nat);
    let f3 = seq![' '] + dw;
    let f2 = seq![' '] + dv;
    let f1 = seq![' '] + usage;
    let rest2 = f2 + seq![','] + f3;
    let rest1 = f1 + seq![','] + rest2;
    let line = name + seq![','] + rest1;
    let report = report_line(name, usage, used as nat, total as nat);
    assert(report =~= line + seq!['\n'] + Seq::<char>::empty());
    assert forall|i: int| 0 <= i < f1.len() implies f1[i] != ',' && f1[i] != '\n' by {
        if i > 0 { assert(f1[i] == usage[i - 1]); }
    }
    assert forall|i: int| 0 <= i < f2.len() implies f2[i] != ',' && f2[i] != '\n' by {
        if i > 0 { assert(f2[i] == dv[i - 1]); }
    }
    assert forall|i: int| 0 <= i < f3.len() implies f3[i] != ',' && f3[i] != '\n' by {
        if i > 0 { assert(f3[i] == dw[i - 1]); }
    }
    let nn = name.len() as int;
    let n1 = f1.len() as int;
    let n2 = f2.len() as int;
    assert forall|i: int| 0 <= i < line.len() implies line[i] != '\n' by {
        if i < nn {
            assert(line[i] == name[i]);
        } else if nn < i < nn + 1 + n1 {
            assert(line[i] == f1[i - nn - 1]);
        } else if nn + 1 + n1 < i < nn + 2 + n1 + n2 {
            assert(line[i] == f2[i - nn - 2 - n1]);
        } else if nn + 2 + n1 + n2 < i {
            assert(line[i] == f3[i - nn - 3 - n1 - n2]);
        }
    }
    lemma_find_char_after(line, '\n', Seq::<char>::empty());
    assert(line.last() == dw.last());
    assert(report.take(line.len() as int) =~= line);
    assert(report.skip(line.len() as int + 1) =~= Seq::<char>::empty());
    assert(lines(report) == seq![line] + lines(Seq::<char>::empty()));
    assert(lines(report)[0] == line);
    lemma_split_join(name, ',', rest1);
    lemma_split_join(f1, ',', rest2);
    lemma_split_join(f2, ',', f3);
    assert forall|i: int| 0 <= i < name.len() implies name[i] != ',' by {}
    lemma_split_single(name, ',');
    lemma_split_single(f1, ',');
    lemma_split_single(f2, ',');
    lemma_split_single(f3, ',');
    let parts = split_on(line, ',');
    assert(parts =~= seq![name, f1, f2, f3]);
    lemma_trim_padded_number(used as nat);
    lemma_trim_padded_number(total as nat);
    crate::text::lemma_parse_decimal_roundtrip(used);
    crate::text::lemma_parse_decimal_roundtrip(total);
}

} // verus!
