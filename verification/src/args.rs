//! The arguments of the command line.

use vstd::prelude::*;
use vstd::string::{StrSliceExecFns, StringExecFns, StringSliceAdditionalSpecFns};
use vstd::utf8::{decode_utf8, valid_utf8};

verus! {

/// What to rename, and how to look for it.
pub struct Args {
    /// Whether hidden entries are listed too.
    pub all: bool,
    /// Whether the entries below the directories are listed too.
    pub recursive: bool,
    /// The directory whose entries are listed.
    pub path: String,
}

impl Default for Args {
    fn default() -> (args: Args)
        ensures
            !args.all,
            !args.recursive,
            args.path@ == "."@,
    {
        Args { all: false, recursive: false, path: String::from_str(".") }
    }
}

/// Why the arguments were refused.
#[derive(Debug)]
pub enum ArgError {
    /// An argument that is neither a known flag nor the path.
    UnknownArg(String),
}

/// `pico_args::Arguments`, the arguments that are not taken out yet.
#[verifier::external_type_specification]
#[verifier::external_body]
pub struct ExArguments(pico_args::Arguments);

/// The arguments that `args` holds, in order, each as its bytes.
pub uninterp spec fn remaining(args: pico_args::Arguments) -> Seq<Seq<u8>>;

/// The text that `OsStr::to_string_lossy` gives for an argument of the bytes
/// `bytes`.
pub uninterp spec fn lossy_text(bytes: Seq<u8>) -> Seq<char>;

/// Where `key` stands first in `items`; the length of `items` if it is none
/// of them.
pub open spec fn first_index(items: Seq<Seq<u8>>, key: Seq<u8>) -> int
    decreases items.len(),
{
    if items.len() == 0 || items[0] == key {
        0
    } else {
        1 + first_index(items.skip(1), key)
    }
}

/// Where a flag of the keys `short` and `long` is found in `items`: where
/// `short` stands first if it is one of them, and else where `long` stands
/// first; the length of `items` if neither is one of them.
pub open spec fn flag_index(items: Seq<Seq<u8>>, short: Seq<u8>, long: Seq<u8>) -> int {
    if first_index(items, short) < items.len() {
        first_index(items, short)
    } else {
        first_index(items, long)
    }
}

/// Whether a flag of the keys `short` and `long` is one of `items`.
pub open spec fn has_flag(items: Seq<Seq<u8>>, short: Seq<u8>, long: Seq<u8>) -> bool {
    flag_index(items, short, long) < items.len()
}

/// `items` without the flag of the keys `short` and `long`, where it is
/// found.
pub open spec fn without_flag(items: Seq<Seq<u8>>, short: Seq<u8>, long: Seq<u8>) -> Seq<
    Seq<u8>,
> {
    if has_flag(items, short, long) {
        items.remove(flag_index(items, short, long))
    } else {
        items
    }
}

/// `pico_args::Arguments::contains` with the keys `short` and `long`: it looks
/// for an argument that is `short`, then for one that is `long`, takes the
/// first it finds out of `args` and says whether it found one. The keys are
/// a dash and one more character, and two dashes and more.
#[verifier::external_body]
fn take_flag(args: &mut pico_args::Arguments, short: &'static str, long: &'static str) -> (found:
    bool)
    requires
        short@.len() == 2,
        short@[0] == '-',
        short@[1] != '-',
        long@.len() >= 2,
        long@[0] == '-',
        long@[1] == '-',
    ensures
        found == has_flag(remaining(*old(args)), short.spec_bytes(), long.spec_bytes()),
        remaining(*final(args)) == without_flag(
            remaining(*old(args)),
            short.spec_bytes(),
            long.spec_bytes(),
        ),
{
    args.contains([short, long])
}

/// `pico_args::Arguments::free_from_str` for a `String`: it takes the first
/// argument out of `args`, if there is one, and gives its text if the argument
/// is UTF-8. Without an argument it gives nothing and leaves `args` as it is.
#[verifier::external_body]
fn take_free(args: &mut pico_args::Arguments) -> (free: Option<String>)
    ensures
        remaining(*old(args)).len() == 0 ==> free is None && remaining(*final(args)) == remaining(
            *old(args),
        ),
        remaining(*old(args)).len() > 0 ==> remaining(*final(args)) == remaining(
            *old(args),
        ).drop_first(),
        free is Some <==> remaining(*old(args)).len() > 0 && valid_utf8(remaining(*old(args))[0]),
        free matches Some(text) ==> text@ == decode_utf8(remaining(*old(args))[0]),
{
    args.free_from_str::<String>().ok()
}

/// `pico_args::Arguments::finish`: the arguments that are left, in order,
/// each as the text that `OsStr::to_string_lossy` gives for it.
#[verifier::external_body]
fn finish(args: pico_args::Arguments) -> (rest: Vec<String>)
    ensures
        rest@.len() == remaining(args).len(),
        forall|i: int| 0 <= i < rest@.len() ==> (#[trigger] rest@[i])@ == lossy_text(
            remaining(args)[i],
        ),
{
    args.finish().iter().map(|arg| arg.to_string_lossy().into_owned()).collect()
}

/// The arguments `items` without the flags that [`Args::split`] takes out.
pub open spec fn without_flags(items: Seq<Seq<u8>>) -> Seq<Seq<u8>> {
    without_flag(
        without_flag(items, "-a".spec_bytes(), "--all".spec_bytes()),
        "-r".spec_bytes(),
        "--recursive".spec_bytes(),
    )
}

/// Whether the path `path` looks like a flag: it begins with a dash.
pub open spec fn looks_like_flag(path: Seq<char>) -> bool {
    path.len() > 0 && path[0] == '-'
}

impl Args {
    /// Takes the flags and the path out of `args`, and gives what is left.
    ///
    /// `-a` or `--all`, and `-r` or `--recursive`, are taken out once each,
    /// wherever they stand. The first argument after that is the path; where
    /// there is none, or it is not UTF-8, the path is `.`.
    pub fn split(args: pico_args::Arguments) -> (found: (Args, Vec<String>))
        ensures
            found.0.all == has_flag(remaining(args), "-a".spec_bytes(), "--all".spec_bytes()),
            found.0.recursive == has_flag(
                without_flag(remaining(args), "-a".spec_bytes(), "--all".spec_bytes()),
                "-r".spec_bytes(),
                "--recursive".spec_bytes(),
            ),
            found.0.path@ == if without_flags(remaining(args)).len() > 0 && valid_utf8(
                without_flags(remaining(args))[0],
            ) {
                decode_utf8(without_flags(remaining(args))[0])
            } else {
                "."@
            },
            found.1@.len() == if without_flags(remaining(args)).len() > 0 {
                without_flags(remaining(args)).len() - 1
            } else {
                0
            },
            forall|i: int|
                0 <= i < found.1@.len() ==> (#[trigger] found.1@[i])@ == lossy_text(
                    without_flags(remaining(args))[i + 1],
                ),
    {
        let mut args = args;
        proof {
            reveal_strlit("-a");
            reveal_strlit("--all");
            reveal_strlit("-r");
            reveal_strlit("--recursive");
        }
        let all = take_flag(&mut args, "-a", "--all");
        let recursive = take_flag(&mut args, "-r", "--recursive");
        let path = match take_free(&mut args) {
            Some(path) => path,
            None => String::from_str("."),
        };
        let rest = finish(args);
        (Args { all, recursive, path }, rest)
    }

    /// Accepts or refuses what [`Args::split`] found.
    ///
    /// A path that begins with a dash and is no entry is taken for a flag that
    /// is not known. Otherwise the first argument that was left over, if there
    /// is one, is not known.
    pub fn checked(self, path_exists: bool, rest: &Vec<String>) -> (checked: Result<
        Args,
        ArgError,
    >)
        ensures
            checked is Ok <==> (path_exists || !looks_like_flag(self.path@)) && rest@.len() == 0,
            checked matches Ok(args) ==> args == self,
            checked matches Err(ArgError::UnknownArg(arg)) ==> arg@ == if !path_exists
                && looks_like_flag(self.path@) {
                self.path@
            } else {
                rest@[0]@
            },
    {
        if !path_exists && !self.path.as_str().is_empty() && self.path.as_str().get_char(0)
            == '-' {
            return Err(ArgError::UnknownArg(self.path));
        }
        if rest.len() > 0 {
            return Err(ArgError::UnknownArg(rest[0].clone()));
        }
        Ok(self)
    }
}

} // verus!
