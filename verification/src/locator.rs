//! Finding the one remote stack that carries a declared name.

use vstd::prelude::*;
use vstd::string::StringExecFns;
use crate::text::eq_ignore_ascii_case;
use crate::text::ieq;

verus! {

/// Identity of an object already present at the remote service.
#[derive(Debug, Clone, PartialEq)]
pub struct RemoteStackRef {
    /// Server-assigned opaque identifier.
    pub id: String,
    /// User-chosen name.
    pub name: String,
}

/// The first entry of `stacks` whose name equals `name` up to ASCII case,
/// if any.
pub open spec fn locate(stacks: Seq<RemoteStackRef>, name: Seq<char>) -> Option<RemoteStackRef>
    decreases stacks.len(),
{
    if stacks.len() == 0 {
        None
    } else if ieq(stacks[0].name@, name) {
        Some(stacks[0])
    } else {
        locate(stacks.drop_first(), name)
    }
}

/// `i` points at a matching entry and no earlier entry matches.
pub open spec fn first_match_at(stacks: Seq<RemoteStackRef>, name: Seq<char>, i: int) -> bool {
    &&& 0 <= i < stacks.len()
    &&& ieq(stacks[i].name@, name)
    &&& forall|j: int| 0 <= j < i ==> !ieq(stacks[j].name@, name)
}

/// A found stack is the first match in list order; absence means no entry
/// matches at all.
pub proof fn lemma_locate_first_match(stacks: Seq<RemoteStackRef>, name: Seq<char>)
    ensures
        locate(stacks, name) matches Some(st) ==> exists|i: int|
            first_match_at(stacks, name, i) && stacks[i] == st,
        locate(stacks, name) is None ==> forall|i: int|
            0 <= i < stacks.len() ==> !ieq(stacks[i].name@, name),
    decreases stacks.len(),
{
    if stacks.len() > 0 {
        if ieq(stacks[0].name@, name) {
            assert(first_match_at(stacks, name, 0) && stacks[0] == locate(stacks, name)->Some_0);
        } else {
            let rest = stacks.drop_first();
            lemma_locate_first_match(rest, name);
            if locate(stacks, name) is Some {
                let st = locate(stacks, name)->Some_0;
                let i = choose|i: int| first_match_at(rest, name, i) && rest[i] == st;
                assert forall|j: int| 0 <= j < i + 1 implies !ieq(stacks[j].name@, name) by {
                    if j > 0 {
                        assert(stacks[j] == rest[j - 1]);
                    }
                }
                assert(first_match_at(stacks, name, i + 1) && stacks[i + 1] == st);
            } else {
                assert forall|i: int| 0 <= i < stacks.len() implies !ieq(
                    stacks[i].name@,
                    name,
                ) by {
                    if i > 0 {
                        assert(stacks[i] == rest[i - 1]);
                    }
                }
            }
        }
    }
}

/// Scans `stacks` in the order the server returned them and yields a copy of
/// the first entry whose name matches `name` ASCII case-insensitively.
pub fn locate_stack(name: &str, stacks: &Vec<RemoteStackRef>) -> (r: Option<RemoteStackRef>)
    ensures
        r == locate(stacks@, name@),
{
    let n = stacks.len();
    let mut i: usize = 0;
    proof {
        assert(stacks@.subrange(0, n as int) =~= stacks@);
    }
    while i < n
        invariant
            n == stacks@.len(),
            i <= n,
            locate(stacks@, name@) == locate(
                stacks@.subrange(i as int, n as int),
                name@,
            ),
        decreases n - i,
    {
        let ghost suffix = stacks@.subrange(i as int, n as int);
        if eq_ignore_ascii_case(stacks[i].name.as_str(), name) {
            proof {
                assert(suffix[0] == stacks@[i as int]);
            }
            return Some(
                RemoteStackRef { id: stacks[i].id.clone(), name: stacks[i].name.clone() },
            );
        }
        proof {
            assert(suffix[0] == stacks@[i as int]);
            assert(suffix.drop_first() =~= stacks@.subrange(i + 1, n as int));
        }
        i = i + 1;
    }
    proof {
        assert(stacks@.subrange(n as int, n as int) =~= Seq::<RemoteStackRef>::empty());
    }
    None
}

/// Identifier of the first stack in `stacks` named `name` up to ASCII case,
/// or `None` when no stack carries the name.
pub fn find_stack_id_by_name(name: &str, stacks: &Vec<RemoteStackRef>) -> (r: Option<String>)
    ensures
        r == match locate(stacks@, name@) {
            None => None::<String>,
            Some(st) => Some(st.id),
        },
{
    match locate_stack(name, stacks) {
        None => None,
        Some(st) => Some(st.id),
    }
}

} // verus!
