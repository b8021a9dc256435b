//! The command line: `serve` (also the default) with `--dir`, `--host` and
//! `--port`; `seed-demo` with `--dir` and `--slots`; `version`; `help`.

use vstd::prelude::*;
use crate::text::{append_str, chars_of, owned, parse_i64, parse_i64_spec, parse_unsigned, parse_unsigned_spec, str_eq, string_of};

verus! {

/// Where and how to serve the site.
#[derive(Debug)]
pub struct ServeConfig {
    pub host: String,
    pub port: u16,
    pub dir: String,
}

/// A parsed command line.
#[derive(Debug)]
pub enum Command {
    Version,
    Help,
    /// Seed demo booking data into the site under `dir`, with a package of
    /// `slots` slots.
    SeedDemo { dir: String, slots: i64 },
    Serve(ServeConfig),
}

/// The `serve` options read from `args[i..]` on top of `cfg` (host, port,
/// directory), or the error the first bad argument gives.
pub open spec fn serve_from(args: Seq<Seq<char>>, i: int, cfg: (Seq<char>, u16, Seq<char>)) -> Result<
    (Seq<char>, u16, Seq<char>),
    Seq<char>,
>
    decreases args.len() - i,
{
    if i < 0 || i >= args.len() {
        Ok(cfg)
    } else {
        let a = args[i];
        if a == "--host"@ {
            if i + 1 < args.len() {
                serve_from(args, i + 2, (args[i + 1], cfg.1, cfg.2))
            } else {
                Err("--host needs a value"@)
            }
        } else if a == "--port"@ {
            if i + 1 < args.len() {
                match parse_unsigned_spec(args[i + 1], 65535) {
                    Some(p) => serve_from(args, i + 2, (cfg.0, p as u16, cfg.2)),
                    None => Err("invalid --port"@),
                }
            } else {
                Err("--port needs a value"@)
            }
        } else if a == "--dir"@ {
            if i + 1 < args.len() {
                serve_from(args, i + 2, (cfg.0, cfg.1, args[i + 1]))
            } else {
                Err("--dir needs a value"@)
            }
        } else {
            Err("unknown flag '"@ + a + "'"@)
        }
    }
}

/// The `seed-demo` options read from `args[i..]` on top of `cfg`
/// (directory, slots).
pub open spec fn seed_from(args: Seq<Seq<char>>, i: int, cfg: (Seq<char>, i64)) -> Result<
    (Seq<char>, i64),
    Seq<char>,
>
    decreases args.len() - i,
{
    if i < 0 || i >= args.len() {
        Ok(cfg)
    } else {
        let a = args[i];
        if a == "--dir"@ {
            if i + 1 < args.len() {
                seed_from(args, i + 2, (args[i + 1], cfg.1))
            } else {
                Err("--dir needs a value"@)
            }
        } else if a == "--slots"@ {
            if i + 1 < args.len() {
                match parse_i64_spec(args[i + 1]) {
                    Some(n) => seed_from(args, i + 2, (cfg.0, n)),
                    None => Err("invalid --slots"@),
                }
            } else {
                Err("--slots needs a value"@)
            }
        } else {
            Err("unknown flag '"@ + a + "'"@)
        }
    }
}

/// The defaults: serve `frontend` on 127.0.0.1:8090.
pub open spec fn serve_defaults() -> (Seq<char>, u16, Seq<char>) {
    ("127.0.0.1"@, 8090u16, "frontend"@)
}

/// The command a command line (without the program name) asks for, by
/// kind: 0 version, 1 help, 2 seed-demo, 3 serve.
pub open spec fn command_kind(args: Seq<Seq<char>>) -> int {
    if args.len() > 0 && (args[0] == "version"@ || args[0] == "--version"@ || args[0] == "-V"@) {
        0
    } else if args.len() > 0 && (args[0] == "help"@ || args[0] == "--help"@ || args[0] == "-h"@) {
        1
    } else if args.len() > 0 && args[0] == "seed-demo"@ {
        2
    } else {
        3
    }
}

/// Where the `serve` options start: after the word `serve` when it is given.
pub open spec fn serve_start(args: Seq<Seq<char>>) -> int {
    if args.len() > 0 && args[0] == "serve"@ {
        1
    } else {
        0
    }
}

fn arg_error(prefix: &str, a: &str, suffix: &str) -> (r: String)
    ensures
        r@ == prefix@ + a@ + suffix@,
{
    let mut v: Vec<char> = Vec::new();
    append_str(&mut v, prefix);
    append_str(&mut v, a);
    append_str(&mut v, suffix);
    string_of(&v)
}

fn parse_serve(args: &Vec<String>, start: usize) -> (r: Result<ServeConfig, String>)
    requires
        start <= args@.len(),
    ensures
        match serve_from(args@.map_values(|s: String| s@), start as int, serve_defaults()) {
            Ok(c) => r matches Ok(cfg) && cfg.host@ == c.0 && cfg.port == c.1 && cfg.dir@ == c.2,
            Err(e) => r matches Err(m) && m@ == e,
        },
{
    let ghost a = args@.map_values(|s: String| s@);
    let mut host = owned("127.0.0.1");
    let mut port: u16 = 8090;
    let mut dir = owned("frontend");
    let mut i = start;
    while i < args.len()
        invariant
            start <= i <= args@.len(),
            a == args@.map_values(|s: String| s@),
            serve_from(a, start as int, serve_defaults()) == serve_from(a, i as int, (host@, port, dir@)),
        decreases args@.len() - i,
    {
        let arg = args[i].as_str();
        assert(a[i as int] == arg@);
        if str_eq(arg, "--host") {
            if i + 1 >= args.len() {
                return Err(owned("--host needs a value"));
            }
            assert(a[i + 1] == args@[i + 1]@);
            host = args[i + 1].clone();
            i = i + 2;
        } else if str_eq(arg, "--port") {
            if i + 1 >= args.len() {
                return Err(owned("--port needs a value"));
            }
            assert(a[i + 1] == args@[i + 1]@);
            match parse_unsigned(&chars_of(args[i + 1].as_str()), 65535) {
                Some(p) => port = p as u16,
                None => return Err(owned("invalid --port")),
            }
            i = i + 2;
        } else if str_eq(arg, "--dir") {
            if i + 1 >= args.len() {
                return Err(owned("--dir needs a value"));
            }
            assert(a[i + 1] == args@[i + 1]@);
            dir = args[i + 1].clone();
            i = i + 2;
        } else {
            return Err(arg_error("unknown flag '", arg, "'"));
        }
    }
    Ok(ServeConfig { host, port, dir })
}

fn parse_seed_demo(args: &Vec<String>) -> (r: Result<(String, i64), String>)
    requires
        1 <= args@.len(),
    ensures
        match seed_from(args@.map_values(|s: String| s@), 1, ("frontend"@, 10)) {
            Ok(c) => r matches Ok(p) && p.0@ == c.0 && p.1 == c.1,
            Err(e) => r matches Err(m) && m@ == e,
        },
{
    let ghost a = args@.map_values(|s: String| s@);
    let mut dir = owned("frontend");
    let mut slots: i64 = 10;
    let mut i: usize = 1;
    while i < args.len()
        invariant
            1 <= i <= args@.len(),
            a == args@.map_values(|s: String| s@),
            seed_from(a, 1, ("frontend"@, 10)) == seed_from(a, i as int, (dir@, slots)),
        decreases args@.len() - i,
    {
        let arg = args[i].as_str();
        assert(a[i as int] == arg@);
        if str_eq(arg, "--dir") {
            if i + 1 >= args.len() {
                return Err(owned("--dir needs a value"));
            }
            assert(a[i + 1] == args@[i + 1]@);
            dir = args[i + 1].clone();
            i = i + 2;
        } else if str_eq(arg, "--slots") {
            if i + 1 >= args.len() {
                return Err(owned("--slots needs a value"));
            }
            assert(a[i + 1] == args@[i + 1]@);
            match parse_i64(&chars_of(args[i + 1].as_str())) {
                Some(n) => slots = n,
                None => return Err(owned("invalid --slots")),
            }
            i = i + 2;
        } else {
            return Err(arg_error("unknown flag '", arg, "'"));
        }
    }
    Ok((dir, slots))
}

/// Read a command line (without the program name).
pub fn parse_command(args: &Vec<String>) -> (r: Result<Command, String>)
    ensures
        command_kind(args@.map_values(|s: String| s@)) == 0 ==> r matches Ok(Command::Version),
        command_kind(args@.map_values(|s: String| s@)) == 1 ==> r matches Ok(Command::Help),
        command_kind(args@.map_values(|s: String| s@)) == 2 ==> match seed_from(
            args@.map_values(|s: String| s@),
            1,
            ("frontend"@, 10),
        ) {
            Ok(c) => r matches Ok(Command::SeedDemo { dir, slots }) && dir@ == c.0 && slots == c.1,
            Err(e) => r matches Err(m) && m@ == e,
        },
        command_kind(args@.map_values(|s: String| s@)) == 3 ==> match serve_from(
            args@.map_values(|s: String| s@),
            serve_start(args@.map_values(|s: String| s@)),
            serve_defaults(),
        ) {
            Ok(c) => r matches Ok(Command::Serve(cfg)) && cfg.host@ == c.0 && cfg.port == c.1 && cfg.dir@ == c.2,
            Err(e) => r matches Err(m) && m@ == e,
        },
{
    let ghost a = args@.map_values(|s: String| s@);
    if args.len() > 0 {
        let first = args[0].as_str();
        assert(a[0] == first@);
        if str_eq(first, "version") || str_eq(first, "--version") || str_eq(first, "-V") {
            return Ok(Command::Version);
        }
        if str_eq(first, "help") || str_eq(first, "--help") || str_eq(first, "-h") {
            return Ok(Command::Help);
        }
        if str_eq(first, "seed-demo") {
            return match parse_seed_demo(args) {
                Ok((dir, slots)) => Ok(Command::SeedDemo { dir, slots }),
                Err(e) => Err(e),
            };
        }
    }
    let start: usize = if args.len() > 0 && str_eq(args[0].as_str(), "serve") {
        1
    } else {
        0
    };
    match parse_serve(args, start) {
        Ok(cfg) => Ok(Command::Serve(cfg)),
        Err(e) => Err(e),
    }
}

} // verus!
