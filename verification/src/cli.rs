//! The context/action disambiguation used by the script-mode dispatcher.

use vstd::prelude::*;

use crate::strutil::str_eq;

verus! {

/// Whether the list of known system actions holds the word.
pub open spec fn spec_is_action(actions: Seq<Seq<char>>, word: Seq<char>) -> bool {
    exists|i: int| 0 <= i < actions.len() && actions[i] == word
}

/// Whether the word is one of the known system actions.
pub fn is_system_action(actions: &Vec<String>, word: &str) -> (r: bool)
    ensures
        r == spec_is_action(actions.deep_view(), word@),
{
    let ghost av = actions.deep_view();
    let mut i: usize = 0;
    while i < actions.len()
        invariant
            i <= actions.len(),
            av == actions.deep_view(),
            forall|j: int| 0 <= j < i ==> av[j] != word@,
        decreases actions.len() - i,
    {
        proof {
            assert(av[i as int] == actions@[i as int]@);
        }
        if str_eq(actions[i].as_str(), word) {
            return true;
        }
        i += 1;
    }
    false
}

/// Decides which positional argument is the context and which the action.
///
/// With two arguments: a known action first means `action context`; a known
/// action second means `context action`; otherwise the second argument is a
/// script name run via `run`. With one argument: `tree` alone shows the
/// whole tree from the root, and anything else starts a session.
pub fn determine_context_and_action(
    arg1: &str,
    arg2: Option<&str>,
    system_actions: &Vec<String>,
) -> (r: (String, String, Vec<String>))
    ensures
        ({
            let actions = system_actions.deep_view();
            match arg2 {
                Some(a2) => if spec_is_action(actions, arg1@) {
                    r.0@ == a2@ && r.1@ == arg1@ && r.2.deep_view() == Seq::<Seq<char>>::empty()
                } else if spec_is_action(actions, a2@) {
                    r.0@ == arg1@ && r.1@ == a2@ && r.2.deep_view() == Seq::<Seq<char>>::empty()
                } else {
                    r.0@ == arg1@ && r.1@ == "run"@ && r.2.deep_view() == seq![a2@]
                },
                None => if arg1@ == "tree"@ {
                    r.0@ == "global"@ && r.1@ == "tree"@ && r.2.deep_view() == Seq::<
                        Seq<char>,
                    >::empty()
                } else {
                    r.0@ == arg1@ && r.1@ == "start"@ && r.2.deep_view() == Seq::<
                        Seq<char>,
                    >::empty()
                },
            }
        }),
{
    match arg2 {
        Some(arg2_val) => {
            if is_system_action(system_actions, arg1) {
                let empty: Vec<String> = Vec::new();
                proof {
                    assert(empty.deep_view() =~= Seq::<Seq<char>>::empty());
                }
                (arg2_val.to_owned(), arg1.to_owned(), empty)
            } else if is_system_action(system_actions, arg2_val) {
                let empty: Vec<String> = Vec::new();
                proof {
                    assert(empty.deep_view() =~= Seq::<Seq<char>>::empty());
                }
                (arg1.to_owned(), arg2_val.to_owned(), empty)
            } else {
                let mut script: Vec<String> = Vec::new();
                script.push(arg2_val.to_owned());
                proof {
                    assert(script.deep_view() =~= seq![arg2_val@]);
                }
                (arg1.to_owned(), "run".to_owned(), script)
            }
        },
        None => {
            let empty: Vec<String> = Vec::new();
            proof {
                assert(empty.deep_view() =~= Seq::<Seq<char>>::empty());
            }
            if str_eq(arg1, "tree") {
                ("global".to_owned(), "tree".to_owned(), empty)
            } else {
                (arg1.to_owned(), "start".to_owned(), empty)
            }
        },
    }
}

} // verus!
