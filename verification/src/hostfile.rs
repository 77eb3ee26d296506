use vstd::prelude::*;

verus! {

/// Unicode `White_Space`: the characters `char::is_whitespace` accepts.
pub open spec fn white_space(c: char) -> bool {
    let u = c as u32;
    (0x09 <= u && u <= 0x0D) || u == 0x20 || u == 0x85 || u == 0xA0 || u == 0x1680 || (0x2000 <= u && u
        <= 0x200A) || u == 0x2028 || u == 0x2029 || u == 0x202F || u == 0x205F || u == 0x3000
}

/// `s` without its leading white space.
pub open spec fn trim_start(s: Seq<char>) -> Seq<char>
    decreases s.len(),
{
    if s.len() > 0 && white_space(s[0]) {
        trim_start(s.drop_first())
    } else {
        s
    }
}

/// `s` without its trailing white space.
pub open spec fn trim_end(s: Seq<char>) -> Seq<char>
    decreases s.len(),
{
    if s.len() > 0 && white_space(s.last()) {
        trim_end(s.drop_last())
    } else {
        s
    }
}

/// `s` without leading and trailing white space.
pub open spec fn trimmed(s: Seq<char>) -> Seq<char> {
    trim_end(trim_start(s))
}

/// Whether a line of a host file names a target: after trimming it is not
/// empty and does not start with `#`.
pub open spec fn is_entry(line: Seq<char>) -> bool {
    trimmed(line).len() > 0 && trimmed(line)[0] != '#'
}

/// The targets named by the lines of a host file: each entry line trimmed,
/// in order; blank lines and comment lines are skipped.
pub open spec fn entries(lines: Seq<Seq<char>>) -> Seq<Seq<char>>
    decreases lines.len(),
{
    if lines.len() == 0 {
        Seq::empty()
    } else {
        let r = entries(lines.drop_last());
        if is_entry(lines.last()) {
            r.push(trimmed(lines.last()))
        } else {
            r
        }
    }
}

/// Decides `white_space`.
pub fn is_white_space(c: char) -> (b: bool)
    ensures
        b == white_space(c),
{
    let u = c as u32;
    (0x09 <= u && u <= 0x0D) || u == 0x20 || u == 0x85 || u == 0xA0 || u == 0x1680 || (0x2000 <= u && u
        <= 0x200A) || u == 0x2028 || u == 0x2029 || u == 0x202F || u == 0x205F || u == 0x3000
}

proof fn lemma_trim_start_skip(s: Seq<char>, i: int)
    requires
        0 <= i <= s.len(),
        forall|k: int| 0 <= k < i ==> white_space(s[k]),
    ensures
        trim_start(s) == trim_start(s.skip(i)),
    decreases i,
{
    if i > 0 {
        assert(s.drop_first().skip(i - 1) =~= s.skip(i));
        lemma_trim_start_skip(s.drop_first(), i - 1);
    } else {
        assert(s.skip(0) =~= s);
    }
}

proof fn lemma_trim_end_take(s: Seq<char>, j: int)
    requires
        0 <= j <= s.len(),
        forall|k: int| j <= k < s.len() ==> white_space(s[k]),
    ensures
        trim_end(s) == trim_end(s.take(j)),
    decreases s.len() - j,
{
    if j < s.len() {
        assert(s.drop_last().take(j) =~= s.take(j));
        lemma_trim_end_take(s.drop_last(), j);
    } else {
        assert(s.take(j) =~= s);
    }
}

/// `line` without leading and trailing white space.
pub fn trim(line: &str) -> (t: String)
    ensures
        t@ == trimmed(line@),
{
    let n = line.unicode_len();
    let mut i: usize = 0;
    while i < n && is_white_space(line.get_char(i))
        invariant
            n == line@.len(),
            i <= n,
            forall|k: int| 0 <= k < i ==> white_space(line@[k]),
        decreases n - i,
    {
        i += 1;
    }
    proof {
        lemma_trim_start_skip(line@, i as int);
    }
    let ghost rest = line@.skip(i as int);
    let mut j: usize = n;
    while j > i && is_white_space(line.get_char(j - 1))
        invariant
            n == line@.len(),
            i <= j <= n,
            forall|k: int| j <= k < n ==> white_space(line@[k]),
        decreases j,
    {
        j -= 1;
    }
    proof {
        let r = line@.skip(i as int);
        assert(trim_start(r) == r) by {
            if r.len() > 0 {
                assert(r[0] == line@[i as int]);
            }
        }
        assert forall|k: int| j - i <= k < r.len() implies white_space(r[k]) by {
            assert(r[k] == line@[i + k]);
        }
        lemma_trim_end_take(r, j - i);
        let m = r.take(j - i);
        assert(trim_end(m) == m) by {
            if m.len() > 0 {
                assert(m.last() == line@[j - 1]);
            }
        }
        assert(m =~= line@.subrange(i as int, j as int));
    }
    line.substring_char(i, j).to_owned()
}

/// The targets named by the lines of a host file (see `entries`).
pub fn host_file_entries(lines: &Vec<String>) -> (out: Vec<String>)
    ensures
        out@.map_values(|s: String| s@) == entries(lines@.map_values(|s: String| s@)),
{
    let ghost views = lines@.map_values(|s: String| s@);
    let mut out: Vec<String> = Vec::new();
    let mut i: usize = 0;
    while i < lines.len()
        invariant
            i <= lines@.len(),
            views == lines@.map_values(|s: String| s@),
            out@.map_values(|s: String| s@) == entries(views.take(i as int)),
        decreases lines.len() - i,
    {
        let t = trim(lines[i].as_str());
        proof {
            assert(views.take(i + 1).drop_last() =~= views.take(i as int));
            assert(views.take(i + 1).last() == lines@[i as int]@);
        }
        if t.as_str().unicode_len() > 0 && t.as_str().get_char(0) != '#' {
            let ghost before = out@;
            out.push(t);
            proof {
                assert(out@.map_values(|s: String| s@) =~= before.map_values(|s: String| s@).push(t@));
            }
        }
        i += 1;
    }
    proof {
        assert(views.take(i as int) =~= views);
    }
    out
}

} // verus!
