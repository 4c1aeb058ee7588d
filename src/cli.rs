//! The command line: which directory to start from, which rule to walk up
//! by, and where to go down afterwards.

use vstd::prelude::*;
use vstd::string::StringSliceAdditionalSpecFns;
use vstd::utf8::encode_utf8;

use crate::count::is_digit;
use crate::path::{is_absolute, segments_of, DirPath};

verus! {

/// The rule that picks the ancestor.
#[derive(Debug, Clone, Copy, PartialEq, Eq, Structural)]
pub enum RuleType {
    /// Up a number of levels.
    N,
    /// Up to a directory with exactly this name.
    Raw,
    /// Up to a directory whose name a glob pattern matches.
    Glob,
    /// Up to a directory in whose name a regular expression finds a match.
    Regex,
    /// Up to a directory that holds a `.git` directory.
    Git,
}

/// Why the command line was not taken.
#[derive(Debug, Clone, Copy, PartialEq, Eq, Structural)]
pub enum ArgError {
    /// Help was asked for; nothing else is done.
    Help,
    /// An argument that must be there is missing.
    MissingArgument,
    /// The starting directory is not an absolute path.
    NotAbsolute,
    /// `-s` has no directory after it.
    MissingDir,
    /// `-r` has no name after it.
    MissingName,
    /// `-g` has no pattern after it.
    MissingPattern,
    /// `-E` has no regular expression after it.
    MissingRegex,
    /// A second rule was given.
    RuleRepeated,
    /// The rule's name is none of `n`, `raw`, `glob`, `regex`, `git`.
    UnknownRule,
}

/// What the command line asks for.
pub struct Cli {
    /// The directory to start from.
    pub fromdir: DirPath,
    /// The rule to walk up by.
    pub rule_type: RuleType,
    /// The rule's argument: a count, a name or a pattern.
    pub rule_value: String,
    /// A glob pattern to go down by after going up.
    pub subsequent_dir: Option<String>,
    /// Whether to print the target rather than go there.
    pub list: bool,
}

/// What the options read so far have set.
pub struct ArgScan {
    /// The pattern given with `-s`, if any.
    pub down: Option<Seq<char>>,
    /// Whether `-l` was given.
    pub list: bool,
    /// The rule given, with its argument.
    pub rule: Option<(RuleType, Seq<char>)>,
    /// Whether `--` was seen: from then on every argument is the rule.
    pub rule_begin: bool,
}

/// The text of an optional string.
pub open spec fn opt_text(o: Option<String>) -> Option<Seq<char>> {
    match o {
        Some(s) => Some(s@),
        None => None,
    }
}

/// Whether `a` is `-` followed by `c` and perhaps more.
pub open spec fn has_flag(a: Seq<char>, c: char) -> bool {
    a.len() >= 2 && a[0] == '-' && a[1] == c
}

/// Whether `a` asks for help.
pub open spec fn is_help(a: Seq<char>) -> bool {
    a == seq!['-', 'h'] || a == seq!['-', '-', 'h', 'e', 'l', 'p']
}

/// Whether `a` is `-` followed by one or more digits: a level count.
pub open spec fn is_level_flag(a: Seq<char>) -> bool {
    &&& a.len() > 1
    &&& a[0] == '-'
    &&& forall|i: int| 1 <= i < a.len() ==> is_digit(#[trigger] a[i])
}

/// The value of the option at `cur`: the rest of the argument after its
/// two flag characters, else the next argument; with the position after it.
pub open spec fn option_value(args: Seq<Seq<char>>, cur: int) -> Option<(Seq<char>, int)> {
    if args[cur].len() > 2 {
        Some((args[cur].skip(2), cur + 1))
    } else if cur + 1 < args.len() {
        Some((args[cur + 1], cur + 2))
    } else {
        None
    }
}

/// Reads the rule whose argument is at `cur`.
pub open spec fn rule_step(args: Seq<Seq<char>>, cur: int, st: ArgScan) -> Result<
    (ArgScan, int),
    ArgError,
> {
    let a = args[cur];
    if has_flag(a, 'r') {
        match option_value(args, cur) {
            Some((v, next)) => Ok((ArgScan { rule: Some((RuleType::Raw, v)), ..st }, next)),
            None => Err(ArgError::MissingName),
        }
    } else if has_flag(a, 'g') {
        match option_value(args, cur) {
            Some((v, next)) => Ok((ArgScan { rule: Some((RuleType::Glob, v)), ..st }, next)),
            None => Err(ArgError::MissingPattern),
        }
    } else if has_flag(a, 'E') {
        match option_value(args, cur) {
            Some((v, next)) => Ok((ArgScan { rule: Some((RuleType::Regex, v)), ..st }, next)),
            None => Err(ArgError::MissingRegex),
        }
    } else if is_level_flag(a) {
        Ok((ArgScan { rule: Some((RuleType::N, a.skip(1))), ..st }, cur + 1))
    } else {
        Ok((ArgScan { rule: Some((RuleType::Raw, a)), ..st }, cur + 1))
    }
}

/// Reads the argument at `cur`: an option while `--` has not been seen,
/// else the rule.
pub open spec fn arg_step(args: Seq<Seq<char>>, cur: int, st: ArgScan) -> Result<
    (ArgScan, int),
    ArgError,
> {
    let a = args[cur];
    if !st.rule_begin && is_help(a) {
        Err(ArgError::Help)
    } else if !st.rule_begin && has_flag(a, 's') {
        match option_value(args, cur) {
            Some((v, next)) => Ok((ArgScan { down: Some(v), ..st }, next)),
            None => Err(ArgError::MissingDir),
        }
    } else if !st.rule_begin && a == seq!['-', 'l'] {
        Ok((ArgScan { list: true, ..st }, cur + 1))
    } else if !st.rule_begin && a == seq!['-', '-'] {
        Ok((ArgScan { rule_begin: true, ..st }, cur + 1))
    } else if st.rule is Some {
        Err(ArgError::RuleRepeated)
    } else {
        rule_step(args, cur, st)
    }
}

/// Reads the arguments from `cur` on.
pub open spec fn scan_args(args: Seq<Seq<char>>, cur: int, st: ArgScan) -> Result<
    ArgScan,
    ArgError,
>
    decreases args.len() - cur,
{
    if cur < 0 || cur >= args.len() {
        Ok(st)
    } else {
        match arg_step(args, cur, st) {
            Err(e) => Err(e),
            Ok((next_st, next)) => scan_args(args, next, next_st),
        }
    }
}

/// Nothing read yet.
pub open spec fn scan_start() -> ArgScan {
    ArgScan { down: None, list: false, rule: None, rule_begin: false }
}

/// The rule given, or one level up when none was.
pub open spec fn rule_or_default(rule: Option<(RuleType, Seq<char>)>) -> (RuleType, Seq<char>) {
    match rule {
        Some(r) => r,
        None => (RuleType::N, seq!['1']),
    }
}

/// What a command line `args` (the program's name first, then the starting
/// directory, then options and the rule) asks for.
pub open spec fn parsed_args(args: Seq<Seq<char>>) -> Result<ArgScan, ArgError> {
    if args.len() < 2 {
        Err(ArgError::MissingArgument)
    } else if !is_absolute(encode_utf8(args[1])) {
        Err(ArgError::NotAbsolute)
    } else {
        scan_args(args, 2, scan_start())
    }
}

/// The options read so far, as the parser holds them.
struct ScanState {
    down: Option<String>,
    list: bool,
    rule: Option<(RuleType, String)>,
    rule_begin: bool,
}

impl View for ScanState {
    type V = ArgScan;

    closed spec fn view(&self) -> ArgScan {
        ArgScan {
            down: opt_text(self.down),
            list: self.list,
            rule: match self.rule {
                Some((t, v)) => Some((t, v@)),
                None => None,
            },
            rule_begin: self.rule_begin,
        }
    }
}

fn text_is(a: &str, t: &str) -> (r: bool)
    ensures
        r == (a@ == t@),
{
    let len = a.unicode_len();
    if len != t.unicode_len() {
        return false;
    }
    let mut i: usize = 0;
    while i < len
        invariant
            len == a@.len(),
            len == t@.len(),
            0 <= i <= len,
            forall|k: int| 0 <= k < i ==> a@[k] == t@[k],
        decreases len - i,
    {
        if a.get_char(i) != t.get_char(i) {
            return false;
        }
        i = i + 1;
    }
    assert(a@ =~= t@);
    true
}

fn has_flag_exec(a: &str, c: char) -> (r: bool)
    ensures
        r == has_flag(a@, c),
{
    let len = a.unicode_len();
    len >= 2 && a.get_char(0) == '-' && a.get_char(1) == c
}

fn is_level_flag_exec(a: &str) -> (r: bool)
    ensures
        r == is_level_flag(a@),
{
    let len = a.unicode_len();
    if len <= 1 || a.get_char(0) != '-' {
        return false;
    }
    let mut i: usize = 1;
    while i < len
        invariant
            len == a@.len(),
            1 <= i <= len,
            forall|k: int| 1 <= k < i ==> is_digit(#[trigger] a@[k]),
        decreases len - i,
    {
        let c = a.get_char(i);
        if c < '0' || c > '9' {
            assert(!is_digit(a@[i as int]));
            return false;
        }
        i = i + 1;
    }
    true
}

fn option_value_exec(args: &Vec<String>, cur: usize) -> (r: Option<(String, usize)>)
    requires
        cur < args@.len(),
    ensures
        match option_value(args.deep_view(), cur as int) {
            Some((v, next)) => match r {
                Some((text, after)) => text@ == v && after == next,
                None => false,
            },
            None => r is None,
        },
{
    let a = args[cur].as_str();
    let _ = args.len();
    assert(args.deep_view()[cur as int] == a@);
    let len = a.unicode_len();
    if len > 2 {
        let rest = a.substring_char(2, len);
        assert(rest@ =~= a@.skip(2));
        Some((rest.to_owned(), cur + 1))
    } else if cur + 1 < args.len() {
        Some((args[cur + 1].clone(), cur + 2))
    } else {
        None
    }
}

fn rule_step_exec(args: &Vec<String>, cur: usize, st: &mut ScanState) -> (r: Result<usize, ArgError>)
    requires
        cur < args@.len(),
    ensures
        match rule_step(args.deep_view(), cur as int, old(st)@) {
            Ok((next_st, next)) => r is Ok && r->Ok_0 == next && final(st)@ == next_st,
            Err(e) => r == Err::<usize, ArgError>(e),
        },
{
    let a = args[cur].as_str();
    let _ = args.len();
    assert(args.deep_view()[cur as int] == a@);
    let kind = if has_flag_exec(a, 'r') {
        Some((RuleType::Raw, ArgError::MissingName))
    } else if has_flag_exec(a, 'g') {
        Some((RuleType::Glob, ArgError::MissingPattern))
    } else if has_flag_exec(a, 'E') {
        Some((RuleType::Regex, ArgError::MissingRegex))
    } else {
        None
    };
    match kind {
        Some((t, missing)) => match option_value_exec(args, cur) {
            Some((v, next)) => {
                st.rule = Some((t, v));
                Ok(next)
            },
            None => Err(missing),
        },
        None => {
            if is_level_flag_exec(a) {
                let len = a.unicode_len();
                let digits = a.substring_char(1, len);
                assert(digits@ =~= a@.skip(1));
                st.rule = Some((RuleType::N, digits.to_owned()));
            } else {
                st.rule = Some((RuleType::Raw, args[cur].clone()));
            }
            Ok(cur + 1)
        },
    }
}

fn arg_step_exec(args: &Vec<String>, cur: usize, st: &mut ScanState) -> (r: Result<usize, ArgError>)
    requires
        cur < args@.len(),
    ensures
        match arg_step(args.deep_view(), cur as int, old(st)@) {
            Ok((next_st, next)) => r is Ok && r->Ok_0 == next && final(st)@ == next_st,
            Err(e) => r == Err::<usize, ArgError>(e),
        },
        r is Ok ==> cur < r->Ok_0 <= args@.len(),
{
    let a = args[cur].as_str();
    let _ = args.len();
    assert(args.deep_view()[cur as int] == a@);
    proof {
        reveal_strlit("-h");
        reveal_strlit("--help");
        reveal_strlit("-l");
        reveal_strlit("--");
        assert("-h"@ =~= seq!['-', 'h']);
        assert("--help"@ =~= seq!['-', '-', 'h', 'e', 'l', 'p']);
        assert("-l"@ =~= seq!['-', 'l']);
        assert("--"@ =~= seq!['-', '-']);
    }
    if !st.rule_begin {
        if text_is(a, "-h") || text_is(a, "--help") {
            return Err(ArgError::Help);
        }
        if has_flag_exec(a, 's') {
            return match option_value_exec(args, cur) {
                Some((v, next)) => {
                    st.down = Some(v);
                    Ok(next)
                },
                None => Err(ArgError::MissingDir),
            };
        }
        if text_is(a, "-l") {
            st.list = true;
            return Ok(cur + 1);
        }
        if text_is(a, "--") {
            st.rule_begin = true;
            return Ok(cur + 1);
        }
    }
    if st.rule.is_some() {
        return Err(ArgError::RuleRepeated);
    }
    rule_step_exec(args, cur, st)
}

/// Reads a command line: the program's name, the absolute directory to
/// start from, then in any order `-s DIR`, `-l` and one rule (`[-r] NAME`,
/// `-g PATTERN`, `-E REGEX`, `-NUM`), with `--` ending the options.
pub fn parse_args(args: &Vec<String>) -> (r: Result<Cli, ArgError>)
    ensures
        match parsed_args(args.deep_view()) {
            Err(e) => r == Err::<Cli, ArgError>(e),
            Ok(st) => {
                &&& r is Ok
                &&& r->Ok_0.fromdir@ == segments_of(encode_utf8(args.deep_view()[1]))
                &&& r->Ok_0.fromdir.wf()
                &&& opt_text(r->Ok_0.subsequent_dir) == st.down
                &&& r->Ok_0.list == st.list
                &&& (r->Ok_0.rule_type, r->Ok_0.rule_value@) == rule_or_default(st.rule)
            },
        },
{
    if args.len() < 2 {
        return Err(ArgError::MissingArgument);
    }
    let fromdir = match DirPath::parse(args[1].as_str().as_bytes()) {
        Some(p) => p,
        None => {
            return Err(ArgError::NotAbsolute);
        },
    };
    let mut st = ScanState { down: None, list: false, rule: None, rule_begin: false };
    let mut cur: usize = 2;
    while cur < args.len()
        invariant
            2 <= cur <= args@.len(),
            parsed_args(args.deep_view()) == scan_args(args.deep_view(), cur as int, st@),
        decreases args@.len() - cur,
    {
        match arg_step_exec(args, cur, &mut st) {
            Ok(next) => {
                cur = next;
            },
            Err(e) => {
                return Err(e);
            },
        }
    }
    let (rule_type, rule_value) = match st.rule {
        Some((t, v)) => (t, v),
        None => {
            proof {
                reveal_strlit("1");
                assert("1"@ =~= seq!['1']);
            }
            (RuleType::N, "1".to_owned())
        },
    };
    Ok(Cli { fromdir, rule_type, rule_value, subsequent_dir: st.down, list: st.list })
}

/// The rule that a name given on the positional command line selects.
pub open spec fn rule_named(name: Seq<char>) -> Option<RuleType> {
    if name == seq!['n'] {
        Some(RuleType::N)
    } else if name == seq!['r', 'a', 'w'] {
        Some(RuleType::Raw)
    } else if name == seq!['g', 'l', 'o', 'b'] {
        Some(RuleType::Glob)
    } else if name == seq!['r', 'e', 'g', 'e', 'x'] {
        Some(RuleType::Regex)
    } else if name == seq!['g', 'i', 't'] {
        Some(RuleType::Git)
    } else {
        None
    }
}

fn rule_named_exec(name: &str) -> (r: Option<RuleType>)
    ensures
        r == rule_named(name@),
{
    proof {
        reveal_strlit("n");
        reveal_strlit("raw");
        reveal_strlit("glob");
        reveal_strlit("regex");
        reveal_strlit("git");
        assert("n"@ =~= seq!['n']);
        assert("raw"@ =~= seq!['r', 'a', 'w']);
        assert("glob"@ =~= seq!['g', 'l', 'o', 'b']);
        assert("regex"@ =~= seq!['r', 'e', 'g', 'e', 'x']);
        assert("git"@ =~= seq!['g', 'i', 't']);
    }
    if text_is(name, "n") {
        Some(RuleType::N)
    } else if text_is(name, "raw") {
        Some(RuleType::Raw)
    } else if text_is(name, "glob") {
        Some(RuleType::Glob)
    } else if text_is(name, "regex") {
        Some(RuleType::Regex)
    } else if text_is(name, "git") {
        Some(RuleType::Git)
    } else {
        None
    }
}

/// Reads the positional command line: the program's name, the absolute
/// directory to start from, the rule's name (`n`, `raw`, `glob`, `regex`,
/// `git`), its argument, and a glob pattern to go down by, empty for none.
pub fn parse_positional(args: &Vec<String>) -> (r: Result<Cli, ArgError>)
    ensures
        args@.len() < 5 ==> r == Err::<Cli, ArgError>(ArgError::MissingArgument),
        args@.len() >= 5 && !is_absolute(encode_utf8(args.deep_view()[1])) ==> r == Err::<
            Cli,
            ArgError,
        >(ArgError::NotAbsolute),
        args@.len() >= 5 && is_absolute(encode_utf8(args.deep_view()[1])) && rule_named(
            args.deep_view()[2],
        ) is None ==> r == Err::<Cli, ArgError>(ArgError::UnknownRule),
        args@.len() >= 5 && is_absolute(encode_utf8(args.deep_view()[1])) && rule_named(
            args.deep_view()[2],
        ) is Some ==> {
            &&& r is Ok
            &&& r->Ok_0.fromdir@ == segments_of(encode_utf8(args.deep_view()[1]))
            &&& r->Ok_0.fromdir.wf()
            &&& Some(r->Ok_0.rule_type) == rule_named(args.deep_view()[2])
            &&& r->Ok_0.rule_value@ == args.deep_view()[3]
            &&& opt_text(r->Ok_0.subsequent_dir) == if args.deep_view()[4].len() == 0 {
                None
            } else {
                Some(args.deep_view()[4])
            }
            &&& !r->Ok_0.list
        },
{
    if args.len() < 5 {
        return Err(ArgError::MissingArgument);
    }
    assert(args.deep_view()[1] == args@[1]@);
    assert(args.deep_view()[2] == args@[2]@);
    assert(args.deep_view()[3] == args@[3]@);
    assert(args.deep_view()[4] == args@[4]@);
    let fromdir = match DirPath::parse(args[1].as_str().as_bytes()) {
        Some(p) => p,
        None => {
            return Err(ArgError::NotAbsolute);
        },
    };
    let rule_type = match rule_named_exec(args[2].as_str()) {
        Some(t) => t,
        None => {
            return Err(ArgError::UnknownRule);
        },
    };
    let subsequent_dir = if args[4].as_str().unicode_len() == 0 {
        None
    } else {
        Some(args[4].clone())
    };
    Ok(Cli { fromdir, rule_type, rule_value: args[3].clone(), subsequent_dir, list: false })
}

} // verus!
