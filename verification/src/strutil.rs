//! Small verified string helpers shared by the rest of the library.

use vstd::prelude::*;

verus! {

/// Appends `suffix` to `s` in place.
///
/// Relies on `String::push_str`: the string becomes its old contents followed
/// by the appended slice.
#[verifier::external_body]
pub fn push_str(s: &mut String, suffix: &str)
    ensures
        final(s)@ == old(s)@ + suffix@,
{
    s.push_str(suffix);
}

/// Appends one character to `s` in place.
///
/// Relies on `String::push`: the string becomes its old contents followed by
/// the appended character.
#[verifier::external_body]
pub fn push_char(s: &mut String, c: char)
    ensures
        final(s)@ == old(s)@ + seq![c],
{
    s.push(c);
}

/// Compares two string slices by content.
pub fn str_eq(a: &str, b: &str) -> (r: bool)
    ensures
        r == (a@ == b@),
{
    let owned_a = a.to_owned();
    let owned_b = b.to_owned();
    owned_a == owned_b
}

/// The slash-joined form of a sequence of names.
pub open spec fn join_slash_spec(parts: Seq<Seq<char>>) -> Seq<char>
    decreases parts.len(),
{
    if parts.len() == 0 {
        Seq::empty()
    } else if parts.len() == 1 {
        parts[0]
    } else {
        join_slash_spec(parts.drop_last()) + seq!['/'] + parts.last()
    }
}

/// Joins display names with `/` into a qualified name.
pub fn join_slash(parts: &Vec<String>) -> (r: String)
    ensures
        r@ == join_slash_spec(parts.deep_view()),
{
    let ghost all = parts.deep_view();
    let mut r = String::new();
    let mut i: usize = 0;
    proof {
        assert(all.take(0) =~= Seq::<Seq<char>>::empty());
        assert(r@ =~= join_slash_spec(all.take(0)));
    }
    while i < parts.len()
        invariant
            i <= parts.len(),
            all == parts.deep_view(),
            r@ == join_slash_spec(all.take(i as int)),
        decreases parts.len() - i,
    {
        if i > 0 {
            push_str(&mut r, "/");
            proof {
                reveal_strlit("/");
            }
        }
        push_str(&mut r, parts[i].as_str());
        proof {
            let prefix = all.take(i as int);
            let next = all.take(i + 1);
            assert(next.drop_last() =~= prefix);
            assert(next.last() == all[i as int]);
            if i > 0 {
                assert("/"@ =~= seq!['/']) by {
                    reveal_strlit("/");
                }
                assert(r@ =~= join_slash_spec(next));
            } else {
                assert(next =~= seq![all[0]]);
                assert(r@ =~= join_slash_spec(next));
            }
        }
        i += 1;
    }
    proof {
        assert(all.take(parts.len() as int) =~= all);
    }
    r
}

} // verus!
