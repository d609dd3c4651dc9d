//! Lenient parsing of a line-oriented `KEY=VALUE` overlay file.
//!
//! Each non-blank, non-comment line is split on its first `=`; the trimmed
//! left side is the name, the trimmed right side the value. Blank lines,
//! `#`-comment lines and lines without `=` are skipped, never an error. A
//! later line wins over an earlier one with the same name.

use vstd::prelude::*;
use vstd::string::StrSliceExecFns;
use vstd::string::StringExecFns;
use crate::envmap::EnvMap;
use crate::text::find;
use crate::text::find_char;
use crate::text::trim;
use crate::text::trim_str;

verus! {

/// `s` cut at every newline, the newlines themselves dropped.
pub open spec fn split_lines(s: Seq<char>) -> Seq<Seq<char>>
    decreases s.len(),
{
    let i = find(s, '\n');
    if 0 <= i && i < s.len() {
        seq![s.subrange(0, i)] + split_lines(s.subrange(i + 1, s.len() as int))
    } else {
        seq![s]
    }
}

/// The binding a single line contributes: `None` for a blank line, a
/// `#`-comment, or a line without `=`; otherwise the trimmed name and value
/// around the first `=` of the trimmed line.
pub open spec fn line_entry(line: Seq<char>) -> Option<(Seq<char>, Seq<char>)> {
    let t = trim(line);
    if t.len() == 0 || t[0] == '#' {
        None
    } else {
        let i = find(t, '=');
        if i < 0 {
            None
        } else {
            Some((trim(t.subrange(0, i)), trim(t.subrange(i + 1, t.len() as int))))
        }
    }
}

/// The mapping a sequence of lines denotes, a later line winning.
pub open spec fn env_of_lines(ls: Seq<Seq<char>>) -> Map<Seq<char>, Seq<char>>
    decreases ls.len(),
{
    if ls.len() == 0 {
        Map::empty()
    } else {
        let m = env_of_lines(ls.drop_last());
        match line_entry(ls.last()) {
            None => m,
            Some(kv) => m.insert(kv.0, kv.1),
        }
    }
}

/// The mapping an overlay text denotes.
pub open spec fn parse_env(s: Seq<char>) -> Map<Seq<char>, Seq<char>> {
    env_of_lines(split_lines(s))
}

/// Adds the binding of one overlay line to `env`, skipping lines that carry
/// none.
fn apply_line(env: &mut EnvMap, line: &str)
    requires
        old(env).wf(),
    ensures
        final(env).wf(),
        final(env).as_map() == match line_entry(line@) {
            None => old(env).as_map(),
            Some(kv) => old(env).as_map().insert(kv.0, kv.1),
        },
{
    let t = trim_str(line);
    let tl = t.unicode_len();
    if tl == 0 {
        return ;
    }
    if t.get_char(0) == '#' {
        return ;
    }
    match find_char(t, '=') {
        None => {},
        Some(i) => {
            let key_part = t.substring_char(0, i);
            let val_part = t.substring_char(i + 1, tl);
            let key = trim_str(key_part);
            let value = trim_str(val_part);
            env.insert(String::from_str(key), String::from_str(value));
        },
    }
}

/// Parses an overlay text into an environment mapping.
///
/// Every line is consumed; a malformed line contributes nothing rather than
/// failing the parse.
pub fn parse_env_text(text: &str) -> (r: EnvMap)
    ensures
        r.wf(),
        r.as_map() == parse_env(text@),
{
    let mut env = EnvMap::new();
    let len = text.unicode_len();
    let mut p: usize = 0;
    let ghost mut done: Seq<Seq<char>> = Seq::empty();
    proof {
        assert(text@.subrange(0, len as int) =~= text@);
        assert(done + split_lines(text@) =~= split_lines(text@));
    }
    loop
        invariant
            text@.len() == len,
            p <= len,
            env.wf(),
            env.as_map() == env_of_lines(done),
            split_lines(text@) == done + split_lines(text@.subrange(p as int, len as int)),
        decreases len - p,
    {
        let rem = text.substring_char(p, len);
        let ghost rem_view = rem@;
        match find_char(rem, '\n') {
            Some(j) => {
                let line = text.substring_char(p, p + j);
                apply_line(&mut env, line);
                proof {
                    assert(rem_view.subrange(0, j as int) =~= line@);
                    assert(rem_view.subrange(j + 1, rem_view.len() as int) =~= text@.subrange(
                        p + j + 1,
                        len as int,
                    ));
                    assert(split_lines(rem_view) == seq![line@] + split_lines(
                        text@.subrange(p + j + 1, len as int),
                    ));
                    assert(done + split_lines(rem_view) =~= done.push(line@) + split_lines(
                        text@.subrange(p + j + 1, len as int),
                    ));
                    assert(done.push(line@).drop_last() =~= done);
                    done = done.push(line@);
                }
                p = p + j + 1;
            },
            None => {
                apply_line(&mut env, rem);
                proof {
                    assert(split_lines(rem_view) == seq![rem_view]);
                    assert(done + split_lines(rem_view) =~= done.push(rem_view));
                    assert(done.push(rem_view).drop_last() =~= done);
                    done = done.push(rem_view);
                    assert(split_lines(text@) == done);
                }
                return env;
            },
        }
    }
}

/// The text form of a sequence of assignments: one `NAME=value` line per
/// entry, in order.
pub open spec fn render_entries(entries: Seq<(String, String)>) -> Seq<char>
    decreases entries.len(),
{
    if entries.len() == 0 {
        Seq::empty()
    } else {
        render_entries(entries.drop_last()) + entries.last().0@ + seq!['='] + entries.last().1@
            + seq!['\n']
    }
}

/// Writes an environment mapping back out as `NAME=value` lines.
pub fn render_env_text(env: &EnvMap) -> (r: String)
    ensures
        r@ == render_entries(env.entries@),
{
    let mut out = String::new();
    let n = env.entries.len();
    let mut i: usize = 0;
    proof {
        reveal_strlit("=");
        reveal_strlit("\n");
        assert(env.entries@.subrange(0, 0) =~= Seq::<(String, String)>::empty());
    }
    while i < n
        invariant
            n == env.entries@.len(),
            i <= n,
            "="@ =~= seq!['='],
            "\n"@ =~= seq!['\n'],
            out@ == render_entries(env.entries@.subrange(0, i as int)),
        decreases n - i,
    {
        out.append(env.entries[i].0.as_str());
        out.append("=");
        out.append(env.entries[i].1.as_str());
        out.append("\n");
        proof {
            assert(env.entries@.subrange(0, i + 1).drop_last() =~= env.entries@.subrange(
                0,
                i as int,
            ));
            assert(env.entries@.subrange(0, i + 1).last() == env.entries@[i as int]);
        }
        i = i + 1;
    }
    proof {
        assert(env.entries@.subrange(0, n as int) =~= env.entries@);
    }
    out
}

} // verus!
