//! The operating system's name, as the release file (`/etc/os-release`)
//! gives it in its `PRETTY_NAME=` line.

use vstd::prelude::*;
use crate::text::{chars_of, string_of_range, lines, next_line, trim, trim_range, TrimSet, strip_cr,
    lemma_find_char_after};
use vstd::string::StringExecFns;

verus! {

/// The key of the line that names the system.
pub open spec fn pretty_name_key() -> Seq<char> {
    "PRETTY_NAME="@
}

/// Whether `s` begins with `p`.
pub open spec fn starts_with(s: Seq<char>, p: Seq<char>) -> bool {
    p.len() <= s.len() && s.take(p.len() as int) == p
}

/// The first of the lines `ls` that begins with `p`.
pub open spec fn first_with_prefix(ls: Seq<Seq<char>>, p: Seq<char>) -> Option<Seq<char>>
    decreases ls.len(),
{
    if ls.len() == 0 {
        None
    } else if starts_with(ls[0], p) {
        Some(ls[0])
    } else {
        first_with_prefix(ls.drop_first(), p)
    }
}

/// `s` without every leading repetition of `p` (`str::trim_start_matches`).
pub open spec fn strip_prefixes(s: Seq<char>, p: Seq<char>) -> Seq<char>
    decreases s.len(),
{
    if p.len() > 0 && starts_with(s, p) {
        strip_prefixes(s.skip(p.len() as int), p)
    } else {
        s
    }
}

/// The system's name in the release file `content`: the first line that
/// begins with `PRETTY_NAME=`, without that key (and its repetitions) and
/// without surrounding double quotes; none when no line has the key.
pub open spec fn pretty_name_text(content: Seq<char>) -> Option<Seq<char>> {
    match first_with_prefix(lines(content), pretty_name_key()) {
        Some(line) => Some(trim(strip_prefixes(line, pretty_name_key()), TrimSet::Quote)),
        None => None,
    }
}

/// The name shown for the operating system: the release file's pretty name,
/// or `Linux` when the file could not be read or names no system.
pub open spec fn os_name_text(content: Option<Seq<char>>) -> Seq<char> {
    match content {
        Some(c) => match pretty_name_text(c) {
            Some(n) => n,
            None => "Linux"@,
        },
        None => "Linux"@,
    }
}

fn starts_with_at(cs: &Vec<char>, from: usize, to: usize, p: &Vec<char>) -> (r: bool)
    requires
        from <= to <= cs@.len(),
    ensures
        r == starts_with(cs@.subrange(from as int, to as int), p@),
{
    let ghost s = cs@.subrange(from as int, to as int);
    if p.len() > to - from {
        return false;
    }
    let mut i: usize = 0;
    while i < p.len()
        invariant
            p@.len() <= to - from,
            from <= to <= cs@.len(),
            s == cs@.subrange(from as int, to as int),
            i <= p@.len(),
            forall|j: int| 0 <= j < i ==> cs@[from + j] == p@[j],
        decreases p@.len() - i,
    {
        if cs[from + i] != p[i] {
            assert(s.take(p@.len() as int)[i as int] != p@[i as int]);
            return false;
        }
        i = i + 1;
    }
    assert(s.take(p@.len() as int) =~= p@);
    true
}

/// The system's name in the release file `content`, as `pretty_name_text`
/// states it.
pub fn pretty_name(content: &str) -> (r: Option<String>)
    ensures
        match r {
            Some(n) => pretty_name_text(content@) == Some(n@),
            None => pretty_name_text(content@) is None,
        },
{
    let cs = chars_of(content);
    let key = chars_of("PRETTY_NAME=");
    proof {
        reveal_strlit("PRETTY_NAME=");
    }
    let n = cs.len();
    let mut pos: usize = 0;
    assert(cs@.subrange(0, n as int) =~= content@);
    while pos < n
        invariant
            n == cs@.len(),
            pos <= n,
            key@ == pretty_name_key(),
            key@.len() == 12,
            first_with_prefix(lines(content@), pretty_name_key())
                == first_with_prefix(lines(cs@.subrange(pos as int, n as int)), pretty_name_key()),
        decreases n - pos,
    {
        let (end, next) = next_line(&cs, pos, n);
        let ghost ls = lines(cs@.subrange(pos as int, n as int));
        assert(ls[0] == cs@.subrange(pos as int, end as int));
        assert(ls.drop_first() =~= lines(cs@.subrange(next as int, n as int)));
        if starts_with_at(&cs, pos, end, &key) {
            let mut a = pos;
            while starts_with_at(&cs, a, end, &key)
                invariant
                    pos <= a <= end <= n,
                    n == cs@.len(),
                    key@ == pretty_name_key(),
                    key@.len() == 12,
                    strip_prefixes(cs@.subrange(pos as int, end as int), pretty_name_key())
                        == strip_prefixes(cs@.subrange(a as int, end as int), pretty_name_key()),
                decreases end - a,
            {
                assert(cs@.subrange(a as int, end as int).skip(12) =~= cs@.subrange(a + 12, end as int));
                a = a + key.len();
            }
            let (b, c) = trim_range(&cs, a, end, TrimSet::Quote);
            return Some(string_of_range(&cs, b, c));
        }
        pos = next;
    }
    assert(lines(cs@.subrange(n as int, n as int)) =~= Seq::<Seq<char>>::empty());
    None
}

/// The name shown for the operating system, given the release file's
/// content when it could be read.
pub fn os_name(content: Option<&str>) -> (r: String)
    ensures
        r@ == os_name_text(match content { Some(c) => Some(c@), None => None }),
{
    match content {
        Some(c) => match pretty_name(c) {
            Some(name) => name,
            None => String::from_str("Linux"),
        },
        None => String::from_str("Linux"),
    }
}


/// The text of the lines `ls`, each ended by a line break.
pub open spec fn join_lines(ls: Seq<Seq<char>>) -> Seq<char>
    decreases ls.len(),
{
    if ls.len() == 0 {
        seq![]
    } else {
        ls[0] + seq!['\n'] + join_lines(ls.drop_first())
    }
}

/// Lines that hold no line break and do not begin with the key.
pub open spec fn lines_without_key(ls: Seq<Seq<char>>) -> bool {
    forall|k: int| 0 <= k < ls.len() ==> {
        &&& !starts_with(#[trigger] ls[k], pretty_name_key())
        &&& forall|i: int| 0 <= i < ls[k].len() ==> ls[k][i] != '\n'
    }
}

proof fn lemma_skip_lines_without_key(ls: Seq<Seq<char>>, tail: Seq<char>)
    requires
        lines_without_key(ls),
    ensures
        first_with_prefix(lines(join_lines(ls) + tail), pretty_name_key())
            == first_with_prefix(lines(tail), pretty_name_key()),
    decreases ls.len(),
{
    if ls.len() > 0 {
        let l = ls[0];
        let rest = ls.drop_first();
        assert(lines_without_key(rest)) by {
            assert forall|k: int| 0 <= k < rest.len() implies {
                &&& !starts_with(#[trigger] rest[k], pretty_name_key())
                &&& forall|i: int| 0 <= i < rest[k].len() ==> rest[k][i] != '\n'
            } by {
                assert(rest[k] == ls[k + 1]);
            }
        }
        lemma_skip_lines_without_key(rest, tail);
        let s = join_lines(ls) + tail;
        let after = join_lines(rest) + tail;
        assert(s =~= l + seq!['\n'] + after);
        assert(!starts_with(l, pretty_name_key()));
        lemma_find_char_after(l, '\n', after);
        assert(s.take(l.len() as int) =~= l);
        assert(s.skip(l.len() as int + 1) =~= after);
        let shown = strip_cr(l);
        if starts_with(shown, pretty_name_key()) {
            let k = pretty_name_key().len() as int;
            assert(l.take(k) =~= shown.take(k));
        }
        let ls2 = lines(s);
        assert(ls2 == seq![shown] + lines(after));
        assert(ls2.drop_first() =~= lines(after));
    } else {
        assert(join_lines(ls) + tail =~= tail);
    }
}

/// The system's name is taken from the first line that begins with
/// `PRETTY_NAME=`, wherever it stands: after any number of lines without
/// the key, a line `PRETTY_NAME=` followed by a name (not itself beginning
/// with the key, without line breaks, not ending in `\r`) gives that name
/// without its surrounding quotes; and a file of lines without the key names
/// no system.
pub proof fn lemma_pretty_name_found_anywhere(ls: Seq<Seq<char>>, name: Seq<char>, more: Seq<char>)
    requires
        lines_without_key(ls),
        !starts_with(name, pretty_name_key()),
        forall|i: int| 0 <= i < name.len() ==> name[i] != '\n',
        name.len() == 0 || name.last() != '\r',
    ensures
        pretty_name_text(join_lines(ls) + pretty_name_key() + name + seq!['\n'] + more)
            == Some(trim(name, TrimSet::Quote)),
        pretty_name_text(join_lines(ls)) is None,
{
    reveal_strlit("PRETTY_NAME=");
    let key = pretty_name_key();
    let line = key + name;
    let tail = line + seq!['\n'] + more;
    lemma_skip_lines_without_key(ls, tail);
    assert(join_lines(ls) + key + name + seq!['\n'] + more =~= join_lines(ls) + tail);
    assert forall|i: int| 0 <= i < line.len() implies line[i] != '\n' by {
        if i >= key.len() {
            assert(line[i] == name[i - key.len()]);
        }
    }
    lemma_find_char_after(line, '\n', more);
    assert(tail.take(line.len() as int) =~= line);
    assert(tail.skip(line.len() as int + 1) =~= more);
    assert(line.last() != '\r');
    assert(strip_cr(line) == line);
    assert(lines(tail) == seq![line] + lines(more));
    assert(lines(tail)[0] == line);
    assert(line.take(key.len() as int) =~= key);
    assert(starts_with(line, key));
    assert(line.skip(key.len() as int) =~= name);
    assert(strip_prefixes(line, key) == strip_prefixes(name, key));
    assert(strip_prefixes(name, key) == name);
    lemma_skip_lines_without_key(ls, Seq::<char>::empty());
    assert(join_lines(ls) + Seq::<char>::empty() =~= join_lines(ls));
}

} // verus!
