//! Scanning of the tool's own options.
//!
//! The tokens before a `"--"` separator configure the tool: a configuration
//! file, an optional key/value delimiter, and a help flag; everything after
//! the separator is the command line to rewrite. Scanning is pure: loading
//! the named file is its caller's business.

use vstd::prelude::*;

use crate::error::{ErrV, ZmError};
use crate::strutil::{str_eq, strs_view};

verus! {

/// Mathematical view of a scanned request.
pub ghost struct CliV {
    pub help: bool,
    pub file: Option<Seq<char>>,
    pub delim: Option<Seq<char>>,
    pub rest: Seq<Seq<char>>,
}

/// What the tool was asked to do: show help, which configuration file to
/// load, which delimiter to join with, and the tokens to rewrite.
#[derive(Debug)]
pub struct CliRequest {
    pub help: bool,
    pub file: Option<String>,
    pub delim: Option<String>,
    pub rest: Vec<String>,
}

/// View of an optional owned string.
pub open spec fn opt_str_view(o: Option<String>) -> Option<Seq<char>> {
    match o {
        Some(s) => Some(s@),
        None => None,
    }
}

impl View for CliRequest {
    type V = CliV;

    open spec fn view(&self) -> CliV {
        CliV {
            help: self.help,
            file: opt_str_view(self.file),
            delim: opt_str_view(self.delim),
            rest: strs_view(self.rest@),
        }
    }
}

/// One step of the scan from position `i` with the settings gathered so
/// far: a `"--"` ends the options, the file and delimiter options consume
/// their argument (which must exist and not be the separator), the help
/// options set the flag, anything else is ignored.
pub open spec fn spec_scan(
    args: Seq<Seq<char>>,
    i: int,
    help: bool,
    file: Option<Seq<char>>,
    delim: Option<Seq<char>>,
) -> Result<CliV, ErrV>
    decreases args.len() - i,
{
    if i < 0 || i >= args.len() {
        Ok(CliV { help, file, delim, rest: Seq::empty() })
    } else if args[i] == ("--")@ {
        Ok(CliV { help, file, delim, rest: args.skip(i + 1) })
    } else if args[i] == ("-f")@ || args[i] == ("--file")@ {
        if i + 1 < args.len() && args[i + 1] != ("--")@ {
            spec_scan(args, i + 2, help, Some(args[i + 1]), delim)
        } else {
            Err(ErrV::MissingFileArg { opt: args[i] })
        }
    } else if args[i] == ("--show_keyword_with")@ {
        if i + 1 < args.len() && args[i + 1] != ("--")@ {
            spec_scan(args, i + 2, help, file, Some(args[i + 1]))
        } else {
            Err(ErrV::MissingDelimArg)
        }
    } else if args[i] == ("-h")@ || args[i] == ("--help")@ {
        spec_scan(args, i + 1, true, file, delim)
    } else {
        spec_scan(args, i + 1, help, file, delim)
    }
}

/// The whole scan: an empty invocation only asks for help.
pub open spec fn spec_scan_options(args: Seq<Seq<char>>) -> Result<CliV, ErrV> {
    if args.len() == 0 {
        Ok(CliV { help: true, file: None, delim: None, rest: Seq::empty() })
    } else {
        spec_scan(args, 0, false, None, None)
    }
}

/// An element-wise copy of the tokens from `start` on.
fn tail_from(args: &Vec<String>, start: usize) -> (r: Vec<String>)
    requires
        start <= args@.len(),
    ensures
        r@ == args@.subrange(start as int, args@.len() as int),
{
    let mut r: Vec<String> = Vec::new();
    let mut i: usize = start;
    while i < args.len()
        invariant
            start <= i <= args@.len(),
            r@ == args@.subrange(start as int, i as int),
        decreases args@.len() - i,
    {
        r.push(args[i].clone());
        proof {
            assert(r@ =~= args@.subrange(start as int, i + 1));
        }
        i += 1;
    }
    r
}

/// Scans the raw invocation into a [`CliRequest`], or reports the first
/// option given without its required argument.
#[verifier::loop_isolation(false)]
pub fn scan_options(args: &Vec<String>) -> (r: Result<CliRequest, ZmError>)
    ensures
        match r {
            Ok(c) => spec_scan_options(strs_view(args@)) == Ok::<CliV, ErrV>(c@),
            Err(e) => spec_scan_options(strs_view(args@)) == Err::<CliV, ErrV>(e@),
        },
{
    let ghost argsv = strs_view(args@);
    if args.len() == 0 {
        let r = CliRequest { help: true, file: None, delim: None, rest: Vec::new() };
        proof {
            assert(r@.rest =~= Seq::<Seq<char>>::empty());
        }
        return Ok(r);
    }
    let mut help = false;
    let mut file: Option<String> = None;
    let mut delim: Option<String> = None;
    let mut i: usize = 0;
    while i < args.len()
        invariant
            i <= args@.len(),
            spec_scan(argsv, 0, false, None, None) == spec_scan(
                argsv,
                i as int,
                help,
                opt_str_view(file),
                opt_str_view(delim),
            ),
        decreases args@.len() - i,
    {
        let a = &args[i];
        proof {
            assert(argsv[i as int] == a@);
        }
        if str_eq(a.as_str(), "--") {
            let rest = tail_from(args, i + 1);
            let r = CliRequest { help, file, delim, rest };
            proof {
                assert(strs_view(r.rest@) =~= argsv.skip(i + 1));
            }
            return Ok(r);
        } else if str_eq(a.as_str(), "-f") || str_eq(a.as_str(), "--file") {
            if i + 1 < args.len() && !str_eq(args[i + 1].as_str(), "--") {
                proof {
                    assert(argsv[i + 1] == args@[i + 1]@);
                }
                file = Some(args[i + 1].clone());
                i += 2;
            } else {
                return Err(ZmError::MissingFileArg { opt: a.clone() });
            }
        } else if str_eq(a.as_str(), "--show_keyword_with") {
            if i + 1 < args.len() && !str_eq(args[i + 1].as_str(), "--") {
                proof {
                    assert(argsv[i + 1] == args@[i + 1]@);
                }
                delim = Some(args[i + 1].clone());
                i += 2;
            } else {
                return Err(ZmError::MissingDelimArg);
            }
        } else if str_eq(a.as_str(), "-h") || str_eq(a.as_str(), "--help") {
            help = true;
            i += 1;
        } else {
            i += 1;
        }
    }
    let r = CliRequest { help, file, delim, rest: Vec::new() };
    proof {
        assert(r@.rest =~= Seq::<Seq<char>>::empty());
    }
    Ok(r)
}

} // verus!
