//! Reading the answer to the question whether a large run may go on.
use vstd::prelude::*;

verus! {

/// The characters with Unicode's `White_Space` property.
pub open spec fn white_space(c: char) -> bool {
    let code = c as u32;
    ||| 0x9 <= code <= 0xD
    ||| code == 0x20
    ||| code == 0x85
    ||| code == 0xA0
    ||| code == 0x1680
    ||| 0x2000 <= code <= 0x200A
    ||| code == 0x2028
    ||| code == 0x2029
    ||| code == 0x202F
    ||| code == 0x205F
    ||| code == 0x3000
}

/// An answer is a yes if it is the letter `y`, in either case, and nothing else but white space
/// around it.
pub open spec fn says_yes(answer: Seq<char>) -> bool {
    exists|i: int|
        0 <= i < answer.len() && (#[trigger] answer[i] == 'y' || answer[i] == 'Y') && forall|j: int|
            0 <= j < answer.len() && j != i ==> white_space(#[trigger] answer[j])
}

/// Whether `c` has Unicode's `White_Space` property.
pub fn is_white_space(c: char) -> (yes: bool)
    ensures
        yes == white_space(c),
{
    let code: u32 = c as u32;
    (0x9 <= code && code <= 0xD) || code == 0x20 || code == 0x85 || code == 0xA0 || code == 0x1680
        || (0x2000 <= code && code <= 0x200A) || code == 0x2028 || code == 0x2029 || code == 0x202F
        || code == 0x205F || code == 0x3000
}

/// Whether the line that the user typed agrees to a large run.
pub fn is_yes(answer: &str) -> (yes: bool)
    ensures
        yes == says_yes(answer@),
        yes <==> exists|i: int|
            0 <= i < answer@.len() && (#[trigger] answer@[i] == 'y' || answer@[i] == 'Y')
                && forall|j: int|
                0 <= j < answer@.len() && j != i ==> white_space(#[trigger] answer@[j]),
{
    let mut found: bool = false;
    let ghost mut at: int = 0;
    for c in it: answer.chars()
        invariant
            it.seq() == answer@,
            !found ==> forall|j: int| 0 <= j < it.index() ==> white_space(#[trigger] answer@[j]),
            found ==> {
                &&& 0 <= at < it.index()
                &&& (answer@[at] == 'y' || answer@[at] == 'Y')
                &&& forall|j: int|
                    0 <= j < it.index() && j != at ==> white_space(#[trigger] answer@[j])
            },
    {
        if !is_white_space(c) {
            if found || (c != 'y' && c != 'Y') {
                return false;
            }
            found = true;
            proof {
                at = it.index() as int;
            }
        }
    }
    found
}

} // verus!
