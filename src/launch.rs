//! How the test binary is started: its arguments, its environment, and the
//! compiler flags its build needs.
use vstd::prelude::*;
use vstd::string::StringExecFns;
use crate::config::Config;
use crate::traces::views;

verus! {

/// The arguments of the test binary: its path, `--ignored` when the
/// ignored tests are to run, `--quiet` unless verbose, then the user's own.
pub open spec fn tracee_args_spec(
    binary: Seq<char>,
    ignored: bool,
    verbose: bool,
    varargs: Seq<Seq<char>>,
) -> Seq<Seq<char>> {
    seq![binary] + (if ignored {
        seq!["--ignored"@]
    } else {
        Seq::empty()
    }) + (if !verbose {
        seq!["--quiet"@]
    } else {
        Seq::empty()
    }) + varargs
}

/// One environment entry, `key=value`.
pub open spec fn env_entry(key: Seq<char>, value: Seq<char>) -> Seq<char> {
    key + "="@ + value
}

/// The environment of the test binary: one test thread, then the inherited
/// variables, then full backtraces when verbose.
pub open spec fn tracee_env_spec(vars: Seq<(Seq<char>, Seq<char>)>, verbose: bool) -> Seq<Seq<char>> {
    seq!["RUST_TEST_THREADS=1"@] + vars.map_values(|p: (Seq<char>, Seq<char>)| env_entry(p.0, p.1)) + (
    if verbose {
        seq!["RUST_BACKTRACE=1"@]
    } else {
        Seq::empty()
    })
}

/// The flags that keep code addresses fixed and every function in the
/// binary, followed by the flags already set.
pub open spec fn rustflags_spec(prev: Option<Seq<char>>) -> Seq<char> {
    " -C relocation-model=dynamic-no-pic -C link-dead-code -C opt-level=0 "@ + match prev {
        Some(p) => p,
        None => Seq::empty(),
    }
}

/// The views of a list of pairs of strings.
pub open spec fn pair_views(v: Seq<(String, String)>) -> Seq<(Seq<char>, Seq<char>)> {
    v.map_values(|p: (String, String)| (p.0@, p.1@))
}

/// The argument vector for the test binary at `binary`.
pub fn tracee_args(binary: &String, ignored: bool, config: &Config) -> (r: Vec<String>)
    ensures
        views(r@) == tracee_args_spec(binary@, ignored, config.verbose, views(config.varargs@)),
{
    let mut argv: Vec<String> = Vec::new();
    argv.push(binary.clone());
    if ignored {
        argv.push("--ignored".to_owned());
    }
    if !config.verbose {
        argv.push("--quiet".to_owned());
    }
    let ghost head = views(argv@);
    proof {
        assert(head =~= seq![binary@] + (if ignored {
            seq!["--ignored"@]
        } else {
            Seq::empty()
        }) + (if !config.verbose {
            seq!["--quiet"@]
        } else {
            Seq::empty()
        }));
    }
    let mut i: usize = 0;
    while i < config.varargs.len()
        invariant
            0 <= i <= config.varargs@.len(),
            views(argv@) == head + views(config.varargs@).take(i as int),
        decreases config.varargs@.len() - i,
    {
        let ghost prev = argv@;
        argv.push(config.varargs[i].clone());
        proof {
            assert(views(argv@) =~= views(prev).push(config.varargs@[i as int]@));
            assert(views(config.varargs@).take(i + 1) =~= views(config.varargs@).take(i as int).push(
                config.varargs@[i as int]@,
            ));
            assert(views(argv@) =~= head + views(config.varargs@).take(i + 1));
        }
        i = i + 1;
    }
    proof {
        assert(views(config.varargs@).take(i as int) =~= views(config.varargs@));
    }
    argv
}

/// The environment for the test binary, from the variables `vars` of the
/// current process.
pub fn tracee_env(vars: &Vec<(String, String)>, verbose: bool) -> (r: Vec<String>)
    ensures
        views(r@) == tracee_env_spec(pair_views(vars@), verbose),
{
    let mut env: Vec<String> = Vec::new();
    env.push("RUST_TEST_THREADS=1".to_owned());
    let ghost head = views(env@);
    let ghost entries = pair_views(vars@).map_values(
        |p: (Seq<char>, Seq<char>)| env_entry(p.0, p.1),
    );
    let mut i: usize = 0;
    while i < vars.len()
        invariant
            0 <= i <= vars@.len(),
            head == seq!["RUST_TEST_THREADS=1"@],
            entries == pair_views(vars@).map_values(|p: (Seq<char>, Seq<char>)| env_entry(p.0, p.1)),
            views(env@) == head + entries.take(i as int),
        decreases vars@.len() - i,
    {
        let mut entry = vars[i].0.clone();
        entry.append("=");
        entry.append(vars[i].1.as_str());
        let ghost prev = env@;
        env.push(entry);
        proof {
            assert(views(env@) =~= views(prev).push(entry@));
            assert(entries.take(i + 1) =~= entries.take(i as int).push(entry@));
            assert(views(env@) =~= head + entries.take(i + 1));
        }
        i = i + 1;
    }
    if verbose {
        env.push("RUST_BACKTRACE=1".to_owned());
    }
    proof {
        assert(entries.take(i as int) =~= entries);
        assert(views(env@) =~= tracee_env_spec(pair_views(vars@), verbose));
    }
    env
}

/// The compiler flags for building the test binaries, given the flags
/// already set, if any.
pub fn rustflags(prev: &Option<String>) -> (r: String)
    ensures
        r@ == rustflags_spec(match prev {
            Some(p) => Some(p@),
            None => None,
        }),
{
    let mut value = " -C relocation-model=dynamic-no-pic -C link-dead-code -C opt-level=0 ".to_owned();
    match prev {
        Some(p) => value.append(p.as_str()),
        None => {},
    }
    proof {
        assert(value@ =~= rustflags_spec(match prev {
            Some(p) => Some(p@),
            None => None,
        }));
    }
    value
}

} // verus!
