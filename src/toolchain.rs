use vstd::prelude::*;

verus! {

/// Name of the foreign source file written into the output directory.
pub const SOURCE_FILE_NAME: &'static str = "rust_cpp_tmp.cpp";

/// Name of the static archive that the foreign toolchain produces.
pub const ARCHIVE_NAME: &'static str = "librust_cpp_tmp.a";

/// The language-standard flag appended to the user's C++ flags.
pub const STD_FLAG: &'static str = "-std=c++0x";

pub const OUT_DIR_FLAG: &'static str = "--out-dir";

/// The output directory named in invocation arguments `args[i..]`: the first
/// argument after an `--out-dir` flag (once `found`) that is not itself one.
pub open spec fn out_dir_scan(args: Seq<Seq<char>>, i: int, found: bool) -> Option<Seq<char>>
    decreases args.len() - i,
{
    if i < 0 || i >= args.len() {
        None
    } else if args[i] == OUT_DIR_FLAG@ {
        out_dir_scan(args, i + 1, true)
    } else if found {
        Some(args[i])
    } else {
        out_dir_scan(args, i + 1, false)
    }
}

/// Recovers the output directory from the compiler's invocation arguments.
pub fn out_dir_from_args(args: &Vec<String>) -> (r: Option<String>)
    ensures
        opt_str(&r) == out_dir_scan(args@.map_values(|s: String| s@), 0, false),
{
    let ghost av = args@.map_values(|s: String| s@);
    let flag = String::from_str(OUT_DIR_FLAG);
    let mut found = false;
    let mut i: usize = 0;
    while i < args.len()
        invariant
            i <= args@.len(),
            av == args@.map_values(|s: String| s@),
            flag@ == OUT_DIR_FLAG@,
            out_dir_scan(av, 0, false) == out_dir_scan(av, i as int, found),
        decreases args@.len() - i,
    {
        assert(av[i as int] == args@[i as int]@);
        if args[i] == flag {
            found = true;
        } else if found {
            return Some(args[i].clone());
        }
        i = i + 1;
    }
    None
}

pub open spec fn opt_str(o: &Option<String>) -> Option<Seq<char>> {
    match o {
        Some(s) => Some(s@),
        None => None,
    }
}

/// The output directory: the one named in the arguments, else the working
/// directory `cwd` where there is one.
pub fn resolve_out_dir(args: &Vec<String>, cwd: Option<String>) -> (r: Option<String>)
    ensures
        opt_str(&r) == match out_dir_scan(args@.map_values(|s: String| s@), 0, false) {
            Some(d) => Some(d),
            None => opt_str(&cwd),
        },
{
    match out_dir_from_args(args) {
        Some(d) => Some(d),
        None => cwd,
    }
}

/// The C++ flags for the toolchain: the existing ones, a space, the standard flag.
pub open spec fn cxxflags(existing: Option<Seq<char>>) -> Seq<char> {
    let e = match existing {
        Some(e) => e,
        None => Seq::empty(),
    };
    e + " "@ + STD_FLAG@
}

/// Merges the standard flag into an existing value of the C++ flags.
pub fn merge_cxxflags(existing: Option<String>) -> (r: String)
    ensures
        r@ == cxxflags(opt_str(&existing)),
{
    let mut s = match existing {
        Some(e) => e,
        None => String::new(),
    };
    s.append(" ");
    s.append(STD_FLAG);
    s
}

pub open spec fn digit(d: nat) -> Seq<char> {
    if d == 0 {
        "0"@
    } else if d == 1 {
        "1"@
    } else if d == 2 {
        "2"@
    } else if d == 3 {
        "3"@
    } else if d == 4 {
        "4"@
    } else if d == 5 {
        "5"@
    } else if d == 6 {
        "6"@
    } else if d == 7 {
        "7"@
    } else if d == 8 {
        "8"@
    } else {
        "9"@
    }
}

/// Decimal notation of `n`.
pub open spec fn decimal(n: nat) -> Seq<char>
    decreases n,
{
    if n < 10 {
        digit(n)
    } else {
        decimal(n / 10) + digit(n % 10)
    }
}

fn digit_str(d: u64) -> (r: &'static str)
    requires
        d < 10,
    ensures
        r@ == digit(d as nat),
{
    if d == 0 {
        "0"
    } else if d == 1 {
        "1"
    } else if d == 2 {
        "2"
    } else if d == 3 {
        "3"
    } else if d == 4 {
        "4"
    } else if d == 5 {
        "5"
    } else if d == 6 {
        "6"
    } else if d == 7 {
        "7"
    } else if d == 8 {
        "8"
    } else {
        "9"
    }
}

/// Renders `n` in decimal notation.
pub fn decimal_string(n: u64) -> (r: String)
    ensures
        r@ == decimal(n as nat),
    decreases n,
{
    let mut s = if n < 10 {
        String::new()
    } else {
        decimal_string(n / 10)
    };
    s.append(digit_str(n % 10));
    proof {
        if n < 10 {
            assert(s@ =~= digit(n as nat));
        }
    }
    s
}

/// The environment that the foreign toolchain reads, as name and value pairs:
/// target and host triples, optimization level (0 when unset), the output
/// directory as manifest and output directory, an empty profile, and the
/// merged C++ flags.
pub open spec fn build_env_spec(
    target: Seq<char>,
    host: Seq<char>,
    opt_level: Option<u64>,
    out_dir: Seq<char>,
    existing_cxxflags: Option<Seq<char>>,
) -> Seq<(Seq<char>, Seq<char>)> {
    seq![
        ("TARGET"@, target),
        ("HOST"@, host),
        ("OPT_LEVEL"@, decimal(match opt_level { Some(l) => l as nat, None => 0 })),
        ("CARGO_MANIFEST_DIR"@, out_dir),
        ("OUT_DIR"@, out_dir),
        ("PROFILE"@, Seq::empty()),
        ("CXXFLAGS"@, cxxflags(existing_cxxflags)),
    ]
}

fn pair(a: &str, b: String) -> (r: (String, String))
    ensures
        r.0@ == a@,
        r.1@ == b@,
{
    (String::from_str(a), b)
}

/// Builds the toolchain environment (see `build_env_spec`).
pub fn build_env(
    target: &String,
    host: &String,
    opt_level: Option<u64>,
    out_dir: &String,
    existing_cxxflags: Option<String>,
) -> (r: Vec<(String, String)>)
    ensures
        r@.map_values(|p: (String, String)| (p.0@, p.1@)) == build_env_spec(
            target@,
            host@,
            opt_level,
            out_dir@,
            opt_str(&existing_cxxflags),
        ),
{
    let ghost ex = opt_str(&existing_cxxflags);
    let level = match opt_level {
        Some(l) => l,
        None => 0,
    };
    let mut v: Vec<(String, String)> = Vec::new();
    v.push(pair("TARGET", target.clone()));
    v.push(pair("HOST", host.clone()));
    v.push(pair("OPT_LEVEL", decimal_string(level)));
    v.push(pair("CARGO_MANIFEST_DIR", out_dir.clone()));
    v.push(pair("OUT_DIR", out_dir.clone()));
    v.push(pair("PROFILE", String::new()));
    v.push(pair("CXXFLAGS", merge_cxxflags(existing_cxxflags)));
    assert(v@.map_values(|p: (String, String)| (p.0@, p.1@)) =~= build_env_spec(
        target@,
        host@,
        opt_level,
        out_dir@,
        ex,
    ));
    v
}

} // verus!
