use vstd::prelude::*;

use crate::util::eq_ignore_case;
use crate::util::str_eq_ignore_case;

verus! {

/// One answer an operator may give to a multiple-choice question.
#[derive(Debug)]
pub struct Choice<T> {
    pub name: &'static str,
    pub value: T,
}

/// Reads an operator's reply to a yes-or-no question: the first character
/// decides, case-insensitively; any other reply decides nothing.
pub fn parse_yes_or_no(value: &str) -> (r: Option<bool>)
    ensures
        (r == Some(true)) <==> (value@.len() > 0 && (value@[0] == 'y' || value@[0] == 'Y')),
        (r == Some(false)) <==> (value@.len() > 0 && (value@[0] == 'n' || value@[0] == 'N')),
        (r is None) <==> (value@.len() == 0 || (value@[0] != 'y' && value@[0] != 'Y' && value@[0]
            != 'n' && value@[0] != 'N')),
{
    if value.unicode_len() == 0 {
        return None;
    }
    let c = value.get_char(0);
    if c == 'y' || c == 'Y' {
        Some(true)
    } else if c == 'n' || c == 'N' {
        Some(false)
    } else {
        None
    }
}

/// The value of the first choice whose label matches the reply,
/// case-insensitively; no match decides nothing.
pub fn parse_choice<T: Copy>(input: &str, choices: &[Choice<T>]) -> (r: Option<T>)
    ensures
        match r {
            Some(v) => exists|i: int|
                {
                    &&& 0 <= i < choices@.len()
                    &&& eq_ignore_case((#[trigger] choices@[i]).name@, input@)
                    &&& (forall|j: int|
                        0 <= j < i ==> !eq_ignore_case((#[trigger] choices@[j]).name@, input@))
                    &&& v == choices@[i].value
                },
            None => forall|i: int|
                0 <= i < choices@.len() ==> !eq_ignore_case((#[trigger] choices@[i]).name@, input@),
        },
{
    let mut i: usize = 0;
    while i < choices.len()
        invariant
            i <= choices@.len(),
            forall|j: int| 0 <= j < i ==> !eq_ignore_case((#[trigger] choices@[j]).name@, input@),
        decreases choices@.len() - i,
    {
        if str_eq_ignore_case(choices[i].name, input) {
            proof {
                assert(eq_ignore_case(choices@[i as int].name@, input@));
            }
            return Some(choices[i].value);
        }
        i += 1;
    }
    None
}

} // verus!
