use vstd::prelude::*;
use vstd::string::StrSliceExecFns;

verus! {

/// The command line, sorted: single-character flags gathered from the
/// arguments that start with a dash, and the rest kept as file names in
/// their order.
pub struct ParsedArgs {
    pub flags: Vec<char>,
    pub files: Vec<String>,
}

/// The characters after the dash of every dash-argument among the first
/// `n` arguments, in order.
pub open spec fn spec_flags(args: Seq<Seq<char>>, n: int) -> Seq<char>
    decreases n,
{
    if n <= 0 || n > args.len() {
        Seq::empty()
    } else {
        let a = args[n - 1];
        if a.len() > 0 && a[0] == '-' {
            spec_flags(args, n - 1) + a.skip(1)
        } else {
            spec_flags(args, n - 1)
        }
    }
}

/// The non-dash arguments among the first `n`, in order.
pub open spec fn spec_files(args: Seq<Seq<char>>, n: int) -> Seq<Seq<char>>
    decreases n,
{
    if n <= 0 || n > args.len() {
        Seq::empty()
    } else {
        let a = args[n - 1];
        if a.len() > 0 && a[0] == '-' {
            spec_files(args, n - 1)
        } else {
            spec_files(args, n - 1).push(a)
        }
    }
}

/// The view of the argument list.
pub open spec fn args_view(args: Seq<String>) -> Seq<Seq<char>> {
    args.map(|i: int, a: String| a@)
}

/// Sorts the given arguments into flags and file names: an argument that
/// starts with `-` contributes each of its remaining characters as a
/// flag; every other argument is a file name.
pub fn parse_args(args: Vec<String>) -> (r: ParsedArgs)
    ensures
        r.flags@ == spec_flags(args_view(args@), args@.len() as int),
        r.files@.map(|i: int, a: String| a@) == spec_files(args_view(args@), args@.len() as int),
{
    let ghost av = args_view(args@);
    let mut flags: Vec<char> = Vec::new();
    let mut files: Vec<String> = Vec::new();
    let n = args.len();
    let mut i: usize = 0;
    while i < n
        invariant
            i <= n,
            n == args@.len(),
            av == args_view(args@),
            flags@ == spec_flags(av, i as int),
            files@.map(|k: int, a: String| a@) == spec_files(av, i as int),
        decreases n - i,
    {
        let ghost prev_files = files@;
        let arg = &args[i];
        let alen = arg.as_str().unicode_len();
        let is_dash = alen > 0 && arg.as_str().get_char(0) == '-';
        proof {
            assert(av[i as int] == args@[i as int]@);
        }
        if is_dash {
            let mut j: usize = 1;
            while j < alen
                invariant
                    1 <= j <= alen,
                    alen == arg@.len(),
                    arg@ == av[i as int],
                    av == args_view(args@),
                    i < args@.len(),
                    flags@ == spec_flags(av, i as int) + arg@.subrange(1, j as int),
                decreases alen - j,
            {
                flags.push(arg.as_str().get_char(j));
                j = j + 1;
                proof {
                    assert(flags@ =~= spec_flags(av, i as int) + arg@.subrange(1, j as int));
                }
            }
            proof {
                assert(arg@.subrange(1, alen as int) =~= av[i as int].skip(1));
                assert(flags@ == spec_flags(av, i as int + 1));
            }
        } else {
            files.push(arg.clone());
            proof {
                assert(files@.map(|k: int, a: String| a@) =~= prev_files.map(
                    |k: int, a: String| a@,
                ).push(args@[i as int]@));
            }
        }
        i = i + 1;
    }
    ParsedArgs { flags, files }
}

} // verus!
