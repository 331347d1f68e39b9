//! The command line of the mirroring tool, parsed as a plain function from
//! an argument list to a configuration. The first argument is the program
//! name; `--full-mirror` turns on deep crawling with external downloads.

use vstd::prelude::*;

use crate::extract::{at_least, at_most, scan_stop_pos, ScanStop};
use crate::resource::opt_filter_view;
use crate::text::{str_eq, str_to_chars};

verus! {

/// The parsed command: target URL, output directory, crawl bounds and
/// feature switches.
#[derive(Debug, Clone)]
pub struct MirrorCommand {
    pub url: String,
    pub output_dir: String,
    pub max_depth: usize,
    pub max_concurrent: usize,
    pub ignore_robots: bool,
    pub user_agent: String,
    pub download_external: bool,
    pub follow_redirects: bool,
    pub timeout: u64,
    pub full_mirror: bool,
    pub only_resources: Option<Vec<String>>,
    pub convert_to_webp: bool,
}

/// An argument list the grammar rejects.
#[derive(Debug, Clone, Copy, PartialEq, Eq, Structural)]
pub enum CliError {
    Usage,
}

/// The accumulating state of a parse: options seen so far.
pub struct CommandModel {
    pub url: Option<Seq<char>>,
    pub output_dir: Option<Seq<char>>,
    pub max_depth: Option<int>,
    pub max_concurrent: Option<int>,
    pub ignore_robots: bool,
    pub user_agent: Option<Seq<char>>,
    pub download_external: bool,
    pub follow_redirects: Option<bool>,
    pub timeout: Option<int>,
    pub full_mirror: bool,
    pub only_resources: Option<Seq<Seq<char>>>,
    pub convert_to_webp: bool,
}

pub open spec fn init_model() -> CommandModel {
    CommandModel {
        url: None,
        output_dir: None,
        max_depth: None,
        max_concurrent: None,
        ignore_robots: false,
        user_agent: None,
        download_external: false,
        follow_redirects: None,
        timeout: None,
        full_mirror: false,
        only_resources: None,
        convert_to_webp: false,
    }
}

/// The value of a decimal numeral continued from position `i` with
/// accumulator `acc`; anything but digits fails.
pub open spec fn dec_value(s: Seq<char>, i: int, acc: int) -> Option<int>
    decreases s.len() - i,
{
    if !(0 <= i) {
        None
    } else if i >= s.len() {
        Some(acc)
    } else if '0' <= s[i] && s[i] <= '9' {
        dec_value(s, i + 1, acc * 10 + (s[i] as int - '0' as int))
    } else {
        None
    }
}

/// A whole numeral's value, when it is nonempty, all digits, and at most
/// `max`.
pub open spec fn parsed_dec(s: Seq<char>, max: int) -> Option<int> {
    if s.len() == 0 {
        None
    } else {
        match dec_value(s, 0, 0) {
            Some(v) => if v <= max {
                Some(v)
            } else {
                None
            },
            None => None,
        }
    }
}

/// A numeral's value only grows as digits accumulate.
proof fn lemma_dec_value_monotone(s: Seq<char>, i: int, acc: int)
    requires
        0 <= i,
        0 <= acc,
    ensures
        dec_value(s, i, acc) is Some ==> dec_value(s, i, acc)->0 >= acc,
    decreases s.len() - i,
{
    if i < s.len() && '0' <= s[i] && s[i] <= '9' {
        lemma_dec_value_monotone(s, i + 1, acc * 10 + (s[i] as int - '0' as int));
    }
}

/// Parses a decimal numeral of at most `max`.
pub fn parse_dec(s: &str, max: u64) -> (r: Option<u64>)
    ensures
        match r {
            Some(v) => parsed_dec(s@, max as int) == Some(v as int),
            None => parsed_dec(s@, max as int) is None,
        },
{
    let chars = str_to_chars(s);
    let n = chars.len();
    if n == 0 {
        return None;
    }
    let mut acc: u64 = 0;
    let mut i: usize = 0;
    while i < n
        invariant
            i <= n,
            n == chars@.len(),
            chars@ == s@,
            acc <= max,
            dec_value(s@, 0, 0) == dec_value(s@, i as int, acc as int),
        decreases n - i,
    {
        let c = chars[i];
        if !('0' <= c && c <= '9') {
            return None;
        }
        let d = (c as u8) - 48;
        assert(d as int == s@[i as int] as int - '0' as int);
        if acc > max / 10 || (acc == max / 10 && (d as u64) > max % 10) {
            proof {
                let next = acc * 10 + d as int;
                assert(next > max);
                lemma_dec_value_monotone(s@, i + 1, next);
            }
            return None;
        }
        acc = acc * 10 + (d as u64);
        i = i + 1;
    }
    Some(acc)
}

/// The comma-separated pieces of a value, in order, empties kept.
pub open spec fn split_commas(s: Seq<char>) -> Seq<Seq<char>>
    decreases s.len(),
{
    let e = at_most(at_least(scan_stop_pos(s, 0, ScanStop::Quote(',')), 0), s.len() as int);
    if e >= s.len() {
        seq![s]
    } else {
        seq![s.take(e)] + split_commas(s.skip(e + 1))
    }
}

/// Splits a value at commas.
pub fn split_commas_exec(s: &Vec<char>) -> (r: Vec<String>)
    ensures
        r.deep_view() == split_commas(s@),
{
    let mut out: Vec<String> = Vec::new();
    let mut rest: Vec<char> = crate::paths::copy_range(s, 0, s.len());
    proof {
        assert(s@.subrange(0, s@.len() as int) =~= s@);
    }
    loop
        invariant
            split_commas(s@) =~= out.deep_view() + split_commas(rest@),
        decreases rest@.len(),
    {
        let e = crate::extract::find_stop(&rest, 0, ScanStop::Quote(','));
        if e >= rest.len() {
            let piece = crate::text::chars_to_string(&rest);
            let ghost o0 = out.deep_view();
            out.push(piece);
            proof {
                assert(out.deep_view() =~= o0 + seq![rest@]);
                assert(split_commas(rest@) == seq![rest@]);
                assert(out.deep_view() + Seq::<Seq<char>>::empty() =~= out.deep_view());
                assert(o0 + seq![rest@] =~= o0 + split_commas(rest@));
            }
            return out;
        }
        let piece_chars = crate::paths::copy_range(&rest, 0, e);
        let piece = crate::text::chars_to_string(&piece_chars);
        let ghost o0 = out.deep_view();
        let ghost pre = rest@;
        out.push(piece);
        let next = crate::paths::copy_range(&rest, e + 1, rest.len());
        proof {
            assert(out.deep_view() =~= o0 + seq![pre.take(e as int)]);
            assert(next@ =~= pre.skip(e + 1));
            assert(split_commas(pre) == seq![pre.take(e as int)] + split_commas(pre.skip(e + 1)));
            assert(o0 + (seq![pre.take(e as int)] + split_commas(pre.skip(e + 1))) =~= (o0 + seq![
                pre.take(e as int),
            ]) + split_commas(pre.skip(e + 1)));
        }
        rest = next;
    }
}

/// One pass over the argument list from position `i`: each step consumes a
/// flag, a flag with its value, or the positional URL; an unknown flag, a
/// missing or ill-formed value, a zero bound or a second positional fails.
pub open spec fn parse_args_model(av: Seq<Seq<char>>, i: int, m: CommandModel) -> Option<
    CommandModel,
>
    decreases av.len() - i,
{
    if !(0 <= i) {
        None
    } else if i >= av.len() {
        Some(m)
    } else {
        let a = av[i];
        if a == "-o"@ || a == "--output-dir"@ {
            if i + 1 < av.len() {
                parse_args_model(av, i + 2, CommandModel { output_dir: Some(av[i + 1]), ..m })
            } else {
                None
            }
        } else if a == "-d"@ || a == "--max-depth"@ {
            if i + 1 < av.len() {
                match parsed_dec(av[i + 1], usize::MAX as int) {
                    Some(v) => if v >= 1 {
                        parse_args_model(av, i + 2, CommandModel { max_depth: Some(v), ..m })
                    } else {
                        None
                    },
                    None => None,
                }
            } else {
                None
            }
        } else if a == "-c"@ || a == "--max-concurrent"@ {
            if i + 1 < av.len() {
                match parsed_dec(av[i + 1], usize::MAX as int) {
                    Some(v) => if v >= 1 {
                        parse_args_model(av, i + 2, CommandModel { max_concurrent: Some(v), ..m })
                    } else {
                        None
                    },
                    None => None,
                }
            } else {
                None
            }
        } else if a == "-r"@ || a == "--ignore-robots"@ {
            parse_args_model(av, i + 1, CommandModel { ignore_robots: true, ..m })
        } else if a == "--user-agent"@ {
            if i + 1 < av.len() {
                parse_args_model(av, i + 2, CommandModel { user_agent: Some(av[i + 1]), ..m })
            } else {
                None
            }
        } else if a == "-e"@ || a == "--download-external"@ {
            parse_args_model(av, i + 1, CommandModel { download_external: true, ..m })
        } else if a == "--follow-redirects"@ {
            if i + 1 < av.len() {
                if av[i + 1] == "true"@ {
                    parse_args_model(
                        av,
                        i + 2,
                        CommandModel { follow_redirects: Some(true), ..m },
                    )
                } else if av[i + 1] == "false"@ {
                    parse_args_model(
                        av,
                        i + 2,
                        CommandModel { follow_redirects: Some(false), ..m },
                    )
                } else {
                    None
                }
            } else {
                None
            }
        } else if a == "--timeout"@ {
            if i + 1 < av.len() {
                match parsed_dec(av[i + 1], u64::MAX as int) {
                    Some(v) => parse_args_model(av, i + 2, CommandModel { timeout: Some(v), ..m }),
                    None => None,
                }
            } else {
                None
            }
        } else if a == "--full-mirror"@ {
            parse_args_model(av, i + 1, CommandModel { full_mirror: true, ..m })
        } else if a == "--only-resources"@ {
            if i + 1 < av.len() {
                parse_args_model(
                    av,
                    i + 2,
                    CommandModel { only_resources: Some(split_commas(av[i + 1])), ..m },
                )
            } else {
                None
            }
        } else if a == "--convert-to-webp"@ {
            parse_args_model(av, i + 1, CommandModel { convert_to_webp: true, ..m })
        } else if a.len() > 0 && a[0] == '-' {
            None
        } else if m.url is None {
            parse_args_model(av, i + 1, CommandModel { url: Some(a), ..m })
        } else {
            None
        }
    }
}

/// The model a whole argument list parses to, the program name skipped.
pub open spec fn parsed_command(av: Seq<Seq<char>>) -> Option<CommandModel> {
    parse_args_model(av, 1, init_model())
}

/// A parse succeeds exactly when the grammar accepts the list and both the
/// URL and the output directory were given.
pub open spec fn parse_accepts(av: Seq<Seq<char>>) -> bool {
    match parsed_command(av) {
        Some(m) => m.url is Some && m.output_dir is Some,
        None => false,
    }
}

/// What the accepted command holds: `--full-mirror` forces deep defaults,
/// otherwise explicit values win over the documented defaults.
pub open spec fn command_matches(c: MirrorCommand, m: CommandModel) -> bool {
    &&& Some(c.url@) == m.url
    &&& Some(c.output_dir@) == m.output_dir
    &&& c.max_depth as int == (if m.full_mirror {
        100int
    } else if m.max_depth is Some {
        m.max_depth->0
    } else {
        3int
    })
    &&& c.max_concurrent as int == (if m.full_mirror {
        50int
    } else if m.max_concurrent is Some {
        m.max_concurrent->0
    } else {
        10int
    })
    &&& c.ignore_robots == (m.full_mirror || m.ignore_robots)
    &&& c.download_external == (m.full_mirror || m.download_external)
    &&& c.user_agent@ == (if m.user_agent is Some {
        m.user_agent->0
    } else {
        "WebsiteMirror/1.0"@
    })
    &&& c.follow_redirects == (if m.follow_redirects is Some {
        m.follow_redirects->0
    } else {
        true
    })
    &&& c.timeout as int == (if m.timeout is Some {
        m.timeout->0
    } else {
        30int
    })
    &&& c.full_mirror == m.full_mirror
    &&& opt_filter_view(c.only_resources) == m.only_resources
    &&& c.convert_to_webp == m.convert_to_webp
}

impl MirrorCommand {
    /// Parses an argument list, program name first.
    pub fn try_parse_from(args: &Vec<String>) -> (r: Result<MirrorCommand, CliError>)
        ensures
            r is Ok <==> parse_accepts(args.deep_view()),
            r is Ok ==> command_matches(r->Ok_0, parsed_command(args.deep_view())->0),
    {
        let ghost av = args.deep_view();
        let mut url: Option<String> = None;
        let mut output_dir: Option<String> = None;
        let mut max_depth: Option<usize> = None;
        let mut max_concurrent: Option<usize> = None;
        let mut ignore_robots: bool = false;
        let mut user_agent: Option<String> = None;
        let mut download_external: bool = false;
        let mut follow_redirects: Option<bool> = None;
        let mut timeout: Option<u64> = None;
        let mut full_mirror: bool = false;
        let mut only_resources: Option<Vec<String>> = None;
        let mut convert_to_webp: bool = false;
        let n = args.len();
        let mut i: usize = 1;
        proof {
            assert(av.len() == args@.len());
        }
        while i < n
            invariant
                1 <= i,
                n == args@.len(),
                av == args.deep_view(),
                av.len() == args@.len(),
                parsed_command(av) == parse_args_model(
                    av,
                    i as int,
                    CommandModel {
                        url: opt_str_view(url),
                        output_dir: opt_str_view(output_dir),
                        max_depth: opt_usize_view(max_depth),
                        max_concurrent: opt_usize_view(max_concurrent),
                        ignore_robots: ignore_robots,
                        user_agent: opt_str_view(user_agent),
                        download_external: download_external,
                        follow_redirects: follow_redirects,
                        timeout: opt_u64_view(timeout),
                        full_mirror: full_mirror,
                        only_resources: opt_filter_view(only_resources),
                        convert_to_webp: convert_to_webp,
                    },
                ),
            decreases n - i,
        {
            proof {
                assert(av[i as int] == args@[i as int]@);
                if i + 1 < n {
                    assert(av[i + 1] == args@[i + 1]@);
                }
            }
            let a = args[i].as_str();
            if str_eq(a, "-o") || str_eq(a, "--output-dir") {
                if i + 1 < n {
                    output_dir = Some(args[i + 1].clone());
                    i = i + 2;
                } else {
                    return Err(CliError::Usage);
                }
            } else if str_eq(a, "-d") || str_eq(a, "--max-depth") {
                if i + 1 < n {
                    match parse_dec(args[i + 1].as_str(), usize::MAX as u64) {
                        Some(v) => {
                            if v >= 1 {
                                max_depth = Some(v as usize);
                                i = i + 2;
                            } else {
                                return Err(CliError::Usage);
                            }
                        },
                        None => {
                            return Err(CliError::Usage);
                        },
                    }
                } else {
                    return Err(CliError::Usage);
                }
            } else if str_eq(a, "-c") || str_eq(a, "--max-concurrent") {
                if i + 1 < n {
                    match parse_dec(args[i + 1].as_str(), usize::MAX as u64) {
                        Some(v) => {
                            if v >= 1 {
                                max_concurrent = Some(v as usize);
                                i = i + 2;
                            } else {
                                return Err(CliError::Usage);
                            }
                        },
                        None => {
                            return Err(CliError::Usage);
                        },
                    }
                } else {
                    return Err(CliError::Usage);
                }
            } else if str_eq(a, "-r") || str_eq(a, "--ignore-robots") {
                ignore_robots = true;
                i = i + 1;
            } else if str_eq(a, "--user-agent") {
                if i + 1 < n {
                    user_agent = Some(args[i + 1].clone());
                    i = i + 2;
                } else {
                    return Err(CliError::Usage);
                }
            } else if str_eq(a, "-e") || str_eq(a, "--download-external") {
                download_external = true;
                i = i + 1;
            } else if str_eq(a, "--follow-redirects") {
                if i + 1 < n {
                    let v = args[i + 1].as_str();
                    if str_eq(v, "true") {
                        follow_redirects = Some(true);
                        i = i + 2;
                    } else if str_eq(v, "false") {
                        follow_redirects = Some(false);
                        i = i + 2;
                    } else {
                        return Err(CliError::Usage);
                    }
                } else {
                    return Err(CliError::Usage);
                }
            } else if str_eq(a, "--timeout") {
                if i + 1 < n {
                    match parse_dec(args[i + 1].as_str(), u64::MAX) {
                        Some(v) => {
                            timeout = Some(v);
                            i = i + 2;
                        },
                        None => {
                            return Err(CliError::Usage);
                        },
                    }
                } else {
                    return Err(CliError::Usage);
                }
            } else if str_eq(a, "--full-mirror") {
                full_mirror = true;
                i = i + 1;
            } else if str_eq(a, "--only-resources") {
                if i + 1 < n {
                    let value_chars = str_to_chars(args[i + 1].as_str());
                    let pieces = split_commas_exec(&value_chars);
                    only_resources = Some(pieces);
                    i = i + 2;
                } else {
                    return Err(CliError::Usage);
                }
            } else if str_eq(a, "--convert-to-webp") {
                convert_to_webp = true;
                i = i + 1;
            } else {
                let a_chars = str_to_chars(a);
                if a_chars.len() > 0 && a_chars[0] == '-' {
                    return Err(CliError::Usage);
                }
                match &url {
                    None => {
                        url = Some(args[i].clone());
                        i = i + 1;
                    },
                    Some(_) => {
                        return Err(CliError::Usage);
                    },
                }
            }
        }
        let final_url = match url {
            Some(u) => u,
            None => {
                return Err(CliError::Usage);
            },
        };
        let final_output = match output_dir {
            Some(o) => o,
            None => {
                return Err(CliError::Usage);
            },
        };
        let depth: usize = if full_mirror {
            100
        } else {
            match max_depth {
                Some(d) => d,
                None => 3,
            }
        };
        let concurrent: usize = if full_mirror {
            50
        } else {
            match max_concurrent {
                Some(c) => c,
                None => 10,
            }
        };
        let agent: String = match user_agent {
            Some(u) => u,
            None => "WebsiteMirror/1.0".to_owned(),
        };
        let redirects: bool = match follow_redirects {
            Some(f) => f,
            None => true,
        };
        let timeout_secs: u64 = match timeout {
            Some(t) => t,
            None => 30,
        };
        Ok(
            MirrorCommand {
                url: final_url,
                output_dir: final_output,
                max_depth: depth,
                max_concurrent: concurrent,
                ignore_robots: full_mirror || ignore_robots,
                user_agent: agent,
                download_external: full_mirror || download_external,
                follow_redirects: redirects,
                timeout: timeout_secs,
                full_mirror,
                only_resources,
                convert_to_webp,
            },
        )
    }
}

pub open spec fn opt_str_view(o: Option<String>) -> Option<Seq<char>> {
    match o {
        Some(s) => Some(s@),
        None => None,
    }
}

pub open spec fn opt_usize_view(o: Option<usize>) -> Option<int> {
    match o {
        Some(v) => Some(v as int),
        None => None,
    }
}

pub open spec fn opt_u64_view(o: Option<u64>) -> Option<int> {
    match o {
        Some(v) => Some(v as int),
        None => None,
    }
}

} // verus!
