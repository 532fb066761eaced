use vstd::prelude::*;

verus! {

/// What str::to_lowercase returns for a string: its lower-case form under
/// the full Unicode mapping, a function of the characters alone.
pub uninterp spec fn lower_of(s: Seq<char>) -> Seq<char>;

/// Relies on str::to_lowercase: the lower-cased form of the string, a
/// function of its characters alone.
#[verifier::external_body]
fn lowercase(s: &str) -> (r: String)
    ensures
        r@ == lower_of(s@),
{
    s.to_lowercase()
}

/// Two names are the same entry up to case: their lower-cased forms are
/// equal.
pub open spec fn eq_ignore_case(a: Seq<char>, b: Seq<char>) -> bool {
    lower_of(a) == lower_of(b)
}

/// Whether two strings are equal character for character.
pub fn str_eq(a: &str, b: &str) -> (r: bool)
    ensures
        r == (a@ == b@),
{
    let alen = a.unicode_len();
    let blen = b.unicode_len();
    if alen != blen {
        proof {
            assert(a@.len() != b@.len());
        }
        return false;
    }
    let mut i: usize = 0;
    while i < alen
        invariant
            alen == a@.len(),
            blen == b@.len(),
            alen == blen,
            i <= alen,
            forall|j: int| 0 <= j < i ==> a@[j] == b@[j],
        decreases alen - i,
    {
        if a.get_char(i) != b.get_char(i) {
            proof {
                assert(a@[i as int] != b@[i as int]);
            }
            return false;
        }
        i += 1;
    }
    proof {
        assert(a@ =~= b@);
    }
    true
}

/// Whether two strings name the same entry up to case: both are lower-cased
/// and the results compared character for character.
pub fn str_eq_ignore_case(a: &str, b: &str) -> (r: bool)
    ensures
        r == eq_ignore_case(a@, b@),
{
    let lower_a = lowercase(a);
    let lower_b = lowercase(b);
    str_eq(lower_a.as_str(), lower_b.as_str())
}

/// The value stored under the first key that equals the given key up to
/// case, if any key does.
pub fn get_case_insensitive<'a, T>(map: &'a Vec<(String, T)>, key: &String) -> (r: Option<
    &'a T,
>)
    ensures
        match r {
            Some(v) => exists|i: int|
                {
                    &&& 0 <= i < map@.len()
                    &&& eq_ignore_case((#[trigger] map@[i]).0@, key@)
                    &&& (forall|j: int| 0 <= j < i ==> !eq_ignore_case((#[trigger] map@[j]).0@, key@))
                    &&& *v == map@[i].1
                },
            None => forall|i: int|
                0 <= i < map@.len() ==> !eq_ignore_case((#[trigger] map@[i]).0@, key@),
        },
{
    let mut i: usize = 0;
    while i < map.len()
        invariant
            i <= map@.len(),
            forall|j: int| 0 <= j < i ==> !eq_ignore_case((#[trigger] map@[j]).0@, key@),
        decreases map@.len() - i,
    {
        if str_eq_ignore_case(map[i].0.as_str(), key.as_str()) {
            proof {
                assert(eq_ignore_case(map@[i as int].0@, key@));
            }
            return Some(&map[i].1);
        }
        i += 1;
    }
    None
}

/// The host name up to its first dot: the machine's primary name without
/// any domain suffix.
pub fn get_primary_hostname(hostname: &str) -> (r: String)
    ensures
        r@.len() <= hostname@.len(),
        r@ == hostname@.take(r@.len() as int),
        forall|j: int| 0 <= j < r@.len() ==> hostname@[j] != '.',
        r@.len() < hostname@.len() ==> hostname@[r@.len() as int] == '.',
{
    let n = hostname.unicode_len();
    let mut i: usize = 0;
    while i < n
        invariant
            n == hostname@.len(),
            i <= n,
            forall|j: int| 0 <= j < i ==> hostname@[j] != '.',
        decreases n - i,
    {
        if hostname.get_char(i) == '.' {
            let prefix = hostname.substring_char(0, i);
            proof {
                assert(prefix@ =~= hostname@.take(i as int));
            }
            return prefix.to_owned();
        }
        i += 1;
    }
    proof {
        assert(hostname@ =~= hostname@.take(hostname@.len() as int));
    }
    hostname.to_owned()
}

/// Relies on String::push: appends one character at the string's end.
#[verifier::external_body]
pub(crate) fn push_char(s: &mut String, c: char)
    ensures
        final(s)@ == old(s)@.push(c),
{
    s.push(c);
}

} // verus!
