//! Which command-line arguments are passed on to the build.

use vstd::prelude::*;
use vstd::string::StringExecFns;

verus! {

/// The arguments as plain texts.
pub open spec fn texts(args: Seq<String>) -> Seq<Seq<char>> {
    Seq::new(args.len(), |i: int| args[i]@)
}

/// `args` without the first `flag` and the value that follows it.
pub open spec fn without_flag(args: Seq<Seq<char>>, flag: Seq<char>) -> Seq<Seq<char>>
    decreases args.len(),
{
    if args.len() == 0 {
        args
    } else if args[0] == flag {
        if args.len() == 1 {
            Seq::empty()
        } else {
            args.skip(2)
        }
    } else {
        seq![args[0]] + without_flag(args.skip(1), flag)
    }
}

/// What is left for the build: the arguments without the options that
/// choose the device.
pub open spec fn build_arguments_of(args: Seq<Seq<char>>) -> Seq<Seq<char>> {
    without_flag(without_flag(without_flag(args, "--pid"@), "--vid"@), "--chip"@)
}

/// Where `flag` first stands at `at`, removing it takes out that argument
/// and the next; where it does not occur, nothing changes.
pub proof fn lemma_without_flag(args: Seq<Seq<char>>, flag: Seq<char>, at: int)
    requires
        0 <= at <= args.len(),
        forall|k: int| 0 <= k < at ==> args[k] != flag,
        at < args.len() ==> args[at] == flag,
    ensures
        without_flag(args, flag) == if at == args.len() {
            args
        } else if at + 1 == args.len() {
            args.take(at)
        } else {
            args.take(at) + args.skip(at + 2)
        },
    decreases at,
{
    if at == 0 {
        if args.len() > 1 {
            assert(args.take(0) + args.skip(2) =~= args.skip(2));
        } else if args.len() == 1 {
            assert(args.take(0) =~= Seq::<Seq<char>>::empty());
        }
    } else {
        let rest = args.skip(1);
        assert forall|k: int| 0 <= k < at - 1 implies rest[k] != flag by {
            assert(rest[k] == args[k + 1]);
        }
        lemma_without_flag(rest, flag, at - 1);
        if at == args.len() {
            assert(seq![args[0]] + rest =~= args);
        } else if at + 1 == args.len() {
            assert(seq![args[0]] + rest.take(at - 1) =~= args.take(at));
        } else {
            assert(seq![args[0]] + (rest.take(at - 1) + rest.skip(at + 1)) =~= args.take(at)
                + args.skip(at + 2));
        }
    }
}

/// Takes the first `flag`, and the value after it, out of `args`.
pub fn remove_flag(args: &mut Vec<String>, flag: &String)
    ensures
        texts(final(args)@) == without_flag(texts(old(args)@), flag@),
{
    let ghost before = texts(args@);
    let mut i: usize = 0;
    while i < args.len()
        invariant
            i <= args.len(),
            args@ == old(args)@,
            before == texts(args@),
            forall|k: int| 0 <= k < i ==> before[k] != flag@,
        decreases args.len() - i,
    {
        if args[i] == *flag {
            proof {
                lemma_without_flag(before, flag@, i as int);
            }
            args.remove(i);
            if i < args.len() {
                args.remove(i);
                assert(texts(args@) =~= before.take(i as int) + before.skip(i + 2));
            } else {
                assert(texts(args@) =~= before.take(i as int));
            }
            return ;
        }
        i += 1;
    }
    proof {
        lemma_without_flag(before, flag@, i as int);
    }
}

/// The arguments for the build: those given, without `--pid`, `--vid` and
/// `--chip` and their values.
pub fn build_arguments(args: Vec<String>) -> (rest: Vec<String>)
    ensures
        texts(rest@) == build_arguments_of(texts(args@)),
{
    let mut rest = args;
    remove_flag(&mut rest, &String::from_str("--pid"));
    remove_flag(&mut rest, &String::from_str("--vid"));
    remove_flag(&mut rest, &String::from_str("--chip"));
    rest
}

/// The status with which to exit after a build that failed: the build's
/// own exit code, else the number of the signal that ended it, else 1.
pub fn exit_status(code: Option<i32>, signal: Option<i32>) -> (status: i32)
    ensures
        status == match (code, signal) {
            (Some(c), _) => c,
            (None, Some(s)) => s,
            (None, None) => 1,
        },
{
    match code {
        Some(c) => c,
        None => match signal {
            Some(s) => s,
            None => 1,
        },
    }
}

} // verus!
