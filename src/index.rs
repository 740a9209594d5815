//! The repository index: newline-separated package names.
use vstd::prelude::*;

verus! {

/// The pieces of `s` between newline characters, in order. There is always at
/// least one piece: the text after the last newline, possibly empty.
pub open spec fn segments(s: Seq<char>) -> Seq<Seq<char>>
    decreases s.len(),
{
    if s.len() == 0 {
        seq![Seq::empty()]
    } else {
        let p = segments(s.drop_last());
        if s.last() == '\n' {
            p.push(Seq::empty())
        } else {
            p.update(p.len() - 1, p.last().push(s.last()))
        }
    }
}

/// A line that was ended by a newline loses one carriage return before it.
pub open spec fn strip_cr(line: Seq<char>) -> Seq<char> {
    if line.len() > 0 && line.last() == '\r' {
        line.drop_last()
    } else {
        line
    }
}

/// The lines of `s`: every newline-terminated piece without its terminator
/// (`"\n"` or `"\r\n"`), then the text after the last newline if it is not empty.
pub open spec fn lines_of(s: Seq<char>) -> Seq<Seq<char>> {
    let segs = segments(s);
    let n = segs.len() - 1;
    Seq::new(n as nat, |i: int| strip_cr(segs[i])) + if segs[n].len() == 0 {
        Seq::empty()
    } else {
        seq![segs[n]]
    }
}

/// Whether `name` is one of the lines of the index text.
pub open spec fn listed(index: Seq<char>, name: Seq<char>) -> bool {
    lines_of(index).contains(name)
}

pub proof fn lemma_segments_nonempty(s: Seq<char>)
    ensures
        segments(s).len() >= 1,
    decreases s.len(),
{
    if s.len() > 0 {
        lemma_segments_nonempty(s.drop_last());
    }
}

/// Scans the index text line by line and tells whether one line is exactly
/// `package`.
pub fn tux_find_package(index: &str, package: &str) -> (found: bool)
    ensures
        found == listed(index@, package@),
{
    let name_len = package.unicode_len();
    let ghost s = index@;
    let ghost name = package@;
    // Whether a finished line matched.
    let mut found = false;
    // Length of the current piece, and how it compares to the name.
    let mut seg_len: usize = 0;
    let mut agree = true;
    let mut agree_cr = false;
    let mut pos: usize = 0;
    let total = index.unicode_len();
    let name_ends_cr = name_len > 0 && package.get_char(name_len - 1) == '\r';
    proof {
        assert(s.take(0) =~= Seq::<char>::empty());
        assert(name.take(0) =~= Seq::<char>::empty());
    }
    while pos < total
        invariant
            total == s.len(),
            name_len == name.len(),
            s == index@,
            name == package@,
            name_ends_cr == (name.len() > 0 && name.last() == '\r'),
            pos <= total,
            segments(s.take(pos as int)).len() >= 1,
            seg_len == segments(s.take(pos as int)).last().len(),
            seg_len <= pos,
            found == (exists|k: int|
                0 <= k < segments(s.take(pos as int)).len() - 1
                    && #[trigger] strip_cr(segments(s.take(pos as int))[k]) == name),
            agree == (seg_len <= name.len() && segments(s.take(pos as int)).last() == name.take(
                seg_len as int,
            )),
            agree_cr == (segments(s.take(pos as int)).last() == name.push('\r')),
        decreases total - pos,
    {
        let c = index.get_char(pos);
        let ghost prev = segments(s.take(pos as int));
        proof {
            assert(s.take(pos + 1).drop_last() =~= s.take(pos as int));
            assert(s.take(pos + 1).last() == c);
            lemma_segments_nonempty(s.take(pos as int));
        }
        if c == '\n' {
            let ghost cur = segments(s.take(pos + 1));
            assert(cur == prev.push(Seq::empty()));
            let line_matches = (agree && seg_len == name_len && !name_ends_cr) || agree_cr;
            proof {
                if agree && seg_len == name_len {
                    assert(prev.last() =~= name);
                }
                if agree_cr {
                    assert(strip_cr(prev.last()) =~= name);
                }
                if line_matches {
                    assert(strip_cr(cur[prev.len() - 1]) == name);
                }
                if strip_cr(prev.last()) == name {
                    if prev.last().len() > 0 && prev.last().last() == '\r' {
                        assert(prev.last() =~= name.push('\r'));
                    } else {
                        assert(prev.last() =~= name.take(name.len() as int));
                        assert(prev.last() =~= name);
                    }
                    assert(line_matches);
                }
                assert forall|k: int| 0 <= k < prev.len() - 1 implies #[trigger] cur[k] == prev[k] by {}
                assert(line_matches == (strip_cr(cur[prev.len() - 1]) == name));
                if found {
                    let k = choose|k: int| 0 <= k < prev.len() - 1 && #[trigger] strip_cr(prev[k]) == name;
                    assert(strip_cr(cur[k]) == name);
                }
                if line_matches {
                    assert(strip_cr(cur[prev.len() - 1]) == name);
                }
                if exists|k: int| 0 <= k < cur.len() - 1 && #[trigger] strip_cr(cur[k]) == name {
                    let k = choose|k: int| 0 <= k < cur.len() - 1 && #[trigger] strip_cr(cur[k]) == name;
                    if k < prev.len() - 1 {
                        assert(strip_cr(prev[k]) == name);
                    }
                }
                assert(cur.last() =~= Seq::<char>::empty());
                assert(name.take(0) =~= Seq::<char>::empty());
                assert(cur.last() != name.push('\r')) by {
                    assert(name.push('\r').len() > 0);
                }
            }
            found = found || line_matches;
            seg_len = 0;
            agree = true;
            agree_cr = false;
        } else {
            let ghost cur = segments(s.take(pos + 1));
            assert(cur == prev.update(prev.len() - 1, prev.last().push(c)));
            let new_len = seg_len + 1;
            let next_cr = agree && seg_len == name_len && c == '\r';
            let next_agree = agree && seg_len < name_len && package.get_char(seg_len) == c;
            proof {
                assert(cur.last() == prev.last().push(c));
                assert forall|k: int| 0 <= k < prev.len() - 1 implies #[trigger] cur[k] == prev[k] by {}
                if found {
                    let k = choose|k: int| 0 <= k < prev.len() - 1 && #[trigger] strip_cr(prev[k]) == name;
                    assert(strip_cr(cur[k]) == name);
                }
                if exists|k: int| 0 <= k < cur.len() - 1 && #[trigger] strip_cr(cur[k]) == name {
                    let k = choose|k: int| 0 <= k < cur.len() - 1 && #[trigger] strip_cr(cur[k]) == name;
                    assert(strip_cr(prev[k]) == name);
                }
                if next_agree {
                    assert(cur.last() =~= name.take(new_len as int));
                }
                if cur.last().len() <= name.len() && cur.last() == name.take(new_len as int) {
                    assert(prev.last() =~= cur.last().drop_last());
                    assert(prev.last() =~= name.take(seg_len as int));
                    assert(name[seg_len as int] == cur.last().last());
                }
                if next_cr {
                    assert(prev.last() =~= name);
                    assert(cur.last() =~= name.push('\r'));
                }
                if cur.last() == name.push('\r') {
                    assert(c == cur.last().last());
                    assert(prev.last() =~= cur.last().drop_last());
                    assert(prev.last() =~= name);
                    assert(name.take(seg_len as int) =~= name);
                    assert(agree);
                    assert(next_cr);
                }
                if agree_cr {
                    assert(cur.last().len() == name.len() + 2);
                }
            }
            seg_len = new_len;
            agree = next_agree;
            agree_cr = next_cr;
        }
        pos = pos + 1;
    }
    let result = found || (seg_len > 0 && agree && seg_len == name_len);
    proof {
        assert(s.take(pos as int) =~= s);
        let segs = segments(s);
        let n = segs.len() - 1;
        let lines = lines_of(s);
        if found {
            let k = choose|k: int| 0 <= k < n && #[trigger] strip_cr(segs[k]) == name;
            assert(lines[k] == name);
        }
        if seg_len > 0 && agree && seg_len == name_len {
            assert(segs[n] =~= name);
            assert(lines[n] == name);
        }
        if lines.contains(name) {
            let j = choose|j: int| 0 <= j < lines.len() && lines[j] == name;
            if j < n {
                assert(strip_cr(segs[j]) == name);
            } else {
                assert(segs[n] == name);
                assert(name.take(seg_len as int) =~= name);
            }
        }
    }
    result
}

} // verus!
