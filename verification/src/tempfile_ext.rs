//! Names for entries that are moved out of the way.

use crate::text::push_chars;
use vstd::prelude::*;

verus! {

/// How often a fresh name is drawn before the search is given up.
pub const NUM_RETRIES: u32 = 0x8000_0000;

/// How many random characters a temporary name ends in.
pub const NUM_RAND_CHARS: usize = 6;

/// What every temporary name starts with: it marks the entry as hidden.
pub open spec fn tmp_prefix() -> Seq<char> {
    seq!['.', 't', 'm', 'p']
}

/// Whether `c` is a letter `a` to `z` or `A` to `Z`, or a digit.
pub open spec fn is_alphanumeric(c: char) -> bool {
    ('a' <= c && c <= 'z') || ('A' <= c && c <= 'Z') || ('0' <= c && c <= '9')
}

/// Whether `name` is `prefix` and then `rand_len` letters and digits.
pub open spec fn is_random_name(name: Seq<char>, prefix: Seq<char>, rand_len: nat) -> bool {
    &&& name.len() == prefix.len() + rand_len
    &&& name.take(prefix.len() as int) == prefix
    &&& forall|i: int| prefix.len() <= i < name.len() ==> is_alphanumeric(#[trigger] name[i])
}

/// Whether `name` has the form of a temporary name.
pub open spec fn is_tmp_name(name: Seq<char>) -> bool {
    is_random_name(name, tmp_prefix(), NUM_RAND_CHARS as nat)
}

/// Whether one of `names` has the form of a temporary name.
pub open spec fn has_tmp_name(names: Seq<String>) -> bool {
    exists|i: int| 0 <= i < names.len() && is_tmp_name((#[trigger] names[i])@)
}

/// Whether `name` is one of `names`.
pub open spec fn has_name(names: Seq<String>, name: Seq<char>) -> bool {
    exists|i: int| 0 <= i < names.len() && (#[trigger] names[i])@ == name
}

/// `fastrand::Rng`, a generator of random numbers. Nothing is stated of what
/// it holds.
#[verifier::external_type_specification]
#[verifier::external_body]
pub struct ExRng(fastrand::Rng);

/// `fastrand::Rng::alphanumeric` draws one character out of `a` to `z`, `A` to
/// `Z` and `0` to `9`. Which one it draws is not stated.
pub assume_specification[ fastrand::Rng::alphanumeric ](rng: &mut fastrand::Rng) -> (c: char)
    ensures
        is_alphanumeric(c),
;

/// `std::io::Error::new` with the kind `AlreadyExists` and a message: the
/// error that says that no unused temporary name was found. Nothing is stated
/// of the error.
#[verifier::external_body]
fn too_many_temporary_files() -> std::io::Error {
    std::io::Error::new(std::io::ErrorKind::AlreadyExists, "too many temporary files exist")
}

/// Whether `name` is one of `file_names`.
pub fn contains_name(file_names: &[String], name: &String) -> (found: bool)
    ensures
        found == has_name(file_names@, name@),
{
    let mut i: usize = 0;
    while i < file_names.len()
        invariant
            i <= file_names.len(),
            forall|j: int| 0 <= j < i ==> (#[trigger] file_names@[j])@ != name@,
        decreases file_names.len() - i,
    {
        if file_names[i] == *name {
            return true;
        }
        i += 1;
    }
    false
}

/// `prefix` and then `rand_len` letters and digits drawn from `rng`.
pub fn tmpname(prefix: &str, rand_len: usize, rng: &mut fastrand::Rng) -> (name: String)
    ensures
        is_random_name(name@, prefix@, rand_len as nat),
{
    let mut name = String::new();
    push_chars(&mut name, prefix);
    let mut drawn: usize = 0;
    assert(name@.take(prefix@.len() as int) =~= prefix@);
    while drawn < rand_len
        invariant
            drawn <= rand_len,
            is_random_name(name@, prefix@, drawn as nat),
        decreases rand_len - drawn,
    {
        let ghost before = name@;
        let c = rng.alphanumeric();
        name.push(c);
        drawn += 1;
        assert(name@.take(prefix@.len() as int) =~= before.take(prefix@.len() as int));
    }
    name
}

/// A temporary name that is none of `file_names`.
///
/// Names are drawn from `rng` until one is found that is not among
/// `file_names`, at most [`NUM_RETRIES`] times; after that many draws the
/// search ends with an error. The first draw is taken where no name of
/// `file_names` has the form of a temporary name.
pub fn new_tmp_file_name(file_names: &[String], rng: &mut fastrand::Rng) -> (found: Result<
    String,
    std::io::Error,
>)
    ensures
        found matches Ok(name) ==> is_tmp_name(name@) && !has_name(file_names@, name@),
        !has_tmp_name(file_names@) ==> found is Ok,
{
    let mut tries: u32 = 0;
    while tries < NUM_RETRIES
        invariant
            tries <= NUM_RETRIES,
            tries > 0 ==> has_tmp_name(file_names@),
        decreases NUM_RETRIES - tries,
    {
        let temp_file_name = tmpname(".tmp", NUM_RAND_CHARS, rng);
        proof {
            reveal_strlit(".tmp");
            assert(".tmp"@ =~= tmp_prefix());
        }
        // unlikely, but two names of one form can be the same
        if !contains_name(file_names, &temp_file_name) {
            return Ok(temp_file_name);
        }
        tries += 1;
    }
    Err(too_many_temporary_files())
}

} // verus!
