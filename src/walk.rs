//! The upward walk: drop the last segment of a path until an ancestor
//! satisfies a rule.

use vstd::prelude::*;
use vstd::string::StringSliceAdditionalSpecFns;
use vstd::utf8::*;

use crate::cli::RuleType;
use crate::count::{count_digits, digits_value, is_count, parse_count};
use crate::error::UpError;
use crate::patterns::{glob_accepts, glob_match, regex_accepts, regex_finds, GlobRule, RegexRule};
use crate::path::{DirPath, DOT};

verus! {

/// What a rule says of the name of one ancestor.
pub enum Probe {
    /// Not this one: go on upwards.
    Pass,
    /// This ancestor is the answer.
    Hit,
    /// The ancestor has no name (it ends in `..`): the walk ends unmatched.
    Halt,
    /// The name is not text: the walk ends with an encoding failure.
    Unreadable,
}

/// The walk from the ancestor with `k` segments upwards: how many segments
/// the path keeps when it stops, and what it returns.
pub open spec fn walk_up(segs: Seq<Seq<u8>>, k: int, probe: spec_fn(Seq<u8>) -> Probe) -> (
    int,
    Result<(), UpError>,
)
    decreases k,
{
    if k <= 0 {
        (0, Err(UpError::NoMatch))
    } else {
        match probe(segs[k - 1]) {
            Probe::Pass => walk_up(segs, k - 1, probe),
            Probe::Hit => (k, Ok(())),
            Probe::Halt => (k, Err(UpError::NoMatch)),
            Probe::Unreadable => (k, Err(UpError::InvalidEncoding)),
        }
    }
}

/// The walk that starts by leaving the directory `segs` itself.
pub open spec fn search(segs: Seq<Seq<u8>>, probe: spec_fn(Seq<u8>) -> Probe) -> (
    int,
    Result<(), UpError>,
) {
    walk_up(segs, segs.len() - 1, probe)
}

/// The name `..`, which names no directory.
pub open spec fn parent_marker() -> Seq<u8> {
    seq![DOT, DOT]
}

/// Matching a name exactly, byte for byte.
pub open spec fn raw_probe(name: Seq<u8>) -> spec_fn(Seq<u8>) -> Probe {
    |seg: Seq<u8>|
        if seg == parent_marker() {
            Probe::Halt
        } else if seg == name {
            Probe::Hit
        } else {
            Probe::Pass
        }
}

/// Matching a name, read as UTF-8 text, against a glob pattern.
pub open spec fn glob_probe(pattern: Seq<char>) -> spec_fn(Seq<u8>) -> Probe {
    |seg: Seq<u8>|
        if seg == parent_marker() {
            Probe::Halt
        } else if !valid_utf8(seg) {
            Probe::Unreadable
        } else if glob_match(pattern, decode_utf8(seg)) {
            Probe::Hit
        } else {
            Probe::Pass
        }
}

/// Searching a name, read as UTF-8 text, with a regular expression.
pub open spec fn regex_probe(pattern: Seq<char>) -> spec_fn(Seq<u8>) -> Probe {
    |seg: Seq<u8>|
        if seg == parent_marker() {
            Probe::Halt
        } else if !valid_utf8(seg) {
            Probe::Unreadable
        } else if regex_finds(pattern, decode_utf8(seg)) {
            Probe::Hit
        } else {
            Probe::Pass
        }
}

/// The path after going up `n` levels, or to the root if it is nearer.
pub open spec fn climbed(segs: Seq<Seq<u8>>, n: nat) -> Seq<Seq<u8>> {
    if n <= segs.len() {
        segs.take(segs.len() - n)
    } else {
        Seq::empty()
    }
}

/// Relies on std::str::from_utf8: `Ok` exactly when the bytes are valid
/// UTF-8, and then a text with those very bytes.
#[verifier::external_body]
fn text_of(bytes: &[u8]) -> (r: Option<&str>)
    ensures
        r is Some <==> valid_utf8(bytes@),
        r is Some ==> r->0.spec_bytes() == bytes@,
{
    std::str::from_utf8(bytes).ok()
}

/// Reads a name as text: `None` when it is not valid UTF-8.
fn name_text(bytes: &[u8]) -> (r: Option<&str>)
    ensures
        r is Some <==> valid_utf8(bytes@),
        r is Some ==> r->0@ == decode_utf8(bytes@),
{
    let r = text_of(bytes);
    proof {
        if r is Some {
            encode_utf8_decode_utf8(r->0@);
        }
    }
    r
}

fn bytes_equal(a: &[u8], b: &[u8]) -> (r: bool)
    ensures
        r == (a@ == b@),
{
    if a.len() != b.len() {
        return false;
    }
    let mut i: usize = 0;
    while i < a.len()
        invariant
            a@.len() == b@.len(),
            0 <= i <= a@.len(),
            forall|k: int| 0 <= k < i ==> a@[k] == b@[k],
        decreases a@.len() - i,
    {
        if a[i] != b[i] {
            return false;
        }
        i = i + 1;
    }
    assert(a@ =~= b@);
    true
}

fn is_parent_marker(seg: &[u8]) -> (r: bool)
    ensures
        r == (seg@ == parent_marker()),
{
    let r = seg.len() == 2 && seg[0] == DOT && seg[1] == DOT;
    if r {
        assert(seg@ =~= parent_marker());
    }
    r
}

/// Goes up `n` levels, stopping early at the root.
pub fn upward_atmost(fromdir: &mut DirPath, n: usize)
    ensures
        final(fromdir)@ == climbed(old(fromdir)@, n as nat),
{
    let ghost segs = fromdir@;
    let mut left: usize = n;
    assert(segs.take(segs.len() as int) =~= segs);
    while left > 0
        invariant
            left <= n,
            fromdir@.len() <= segs.len(),
            fromdir@ == segs.take(fromdir@.len() as int),
            n - left == segs.len() - fromdir@.len(),
            segs == old(fromdir)@,
        ensures
            left == 0 || fromdir@.len() == 0,
        decreases left,
    {
        if !fromdir.pop() {
            break;
        }
        assert(segs.take(fromdir@.len() as int) =~= segs.take(fromdir@.len() + 1 as int).drop_last());
        left = left - 1;
    }
    assert(fromdir@ =~= climbed(segs, n as nat));
}

/// Goes up to the nearest strict ancestor named exactly `name`.
pub fn raw_search_upward(fromdir: &mut DirPath, name: &str) -> (r: Result<(), UpError>)
    ensures
        final(fromdir)@ == old(fromdir)@.take(search(old(fromdir)@, raw_probe(name.spec_bytes())).0),
        r == search(old(fromdir)@, raw_probe(name.spec_bytes())).1,
{
    let ghost segs = fromdir@;
    let ghost probe = raw_probe(name.spec_bytes());
    let target = name.as_bytes();
    assert(segs.take(segs.len() as int) =~= segs);
    loop
        invariant
            fromdir@.len() <= segs.len(),
            fromdir@ == segs.take(fromdir@.len() as int),
            probe == raw_probe(name.spec_bytes()),
            target@ == name.spec_bytes(),
            segs == old(fromdir)@,
            search(segs, probe) == walk_up(segs, fromdir@.len() - 1, probe),
        decreases fromdir@.len(),
    {
        if !fromdir.pop() {
            return Err(UpError::NoMatch);
        }
        assert(fromdir@ =~= segs.take(fromdir@.len() as int));
        if fromdir.len() == 0 {
            return Err(UpError::NoMatch);
        }
        let seg = fromdir.last();
        if is_parent_marker(seg.as_slice()) {
            return Err(UpError::NoMatch);
        }
        if bytes_equal(seg.as_slice(), target) {
            return Ok(());
        }
    }
}

/// Goes up to the nearest strict ancestor whose name the glob pattern
/// matches.
pub fn glob_search_upward(fromdir: &mut DirPath, pattern: &GlobRule) -> (r: Result<(), UpError>)
    ensures
        final(fromdir)@ == old(fromdir)@.take(search(old(fromdir)@, glob_probe(pattern@)).0),
        r == search(old(fromdir)@, glob_probe(pattern@)).1,
{
    let ghost segs = fromdir@;
    let ghost probe = glob_probe(pattern@);
    assert(segs.take(segs.len() as int) =~= segs);
    loop
        invariant
            fromdir@.len() <= segs.len(),
            fromdir@ == segs.take(fromdir@.len() as int),
            probe == glob_probe(pattern@),
            segs == old(fromdir)@,
            search(segs, probe) == walk_up(segs, fromdir@.len() - 1, probe),
        decreases fromdir@.len(),
    {
        if !fromdir.pop() {
            return Err(UpError::NoMatch);
        }
        assert(fromdir@ =~= segs.take(fromdir@.len() as int));
        if fromdir.len() == 0 {
            return Err(UpError::NoMatch);
        }
        let seg = fromdir.last();
        if is_parent_marker(seg.as_slice()) {
            return Err(UpError::NoMatch);
        }
        match name_text(seg.as_slice()) {
            None => {
                return Err(UpError::InvalidEncoding);
            },
            Some(text) => {
                if pattern.matches(text) {
                    return Ok(());
                }
            },
        }
    }
}

/// Goes up to the nearest strict ancestor in whose name the regular
/// expression finds a match.
pub fn regex_search_upward(fromdir: &mut DirPath, pattern: &RegexRule) -> (r: Result<(), UpError>)
    ensures
        final(fromdir)@ == old(fromdir)@.take(search(old(fromdir)@, regex_probe(pattern@)).0),
        r == search(old(fromdir)@, regex_probe(pattern@)).1,
{
    let ghost segs = fromdir@;
    let ghost probe = regex_probe(pattern@);
    assert(segs.take(segs.len() as int) =~= segs);
    loop
        invariant
            fromdir@.len() <= segs.len(),
            fromdir@ == segs.take(fromdir@.len() as int),
            probe == regex_probe(pattern@),
            segs == old(fromdir)@,
            search(segs, probe) == walk_up(segs, fromdir@.len() - 1, probe),
        decreases fromdir@.len(),
    {
        if !fromdir.pop() {
            return Err(UpError::NoMatch);
        }
        assert(fromdir@ =~= segs.take(fromdir@.len() as int));
        if fromdir.len() == 0 {
            return Err(UpError::NoMatch);
        }
        let seg = fromdir.last();
        if is_parent_marker(seg.as_slice()) {
            return Err(UpError::NoMatch);
        }
        match name_text(seg.as_slice()) {
            None => {
                return Err(UpError::InvalidEncoding);
            },
            Some(text) => {
                if pattern.is_match(text) {
                    return Ok(());
                }
            },
        }
    }
}

/// The nearest ancestor, at most `k` segments long, whose mark is set.
pub open spec fn marked_ancestor(marks: Seq<bool>, k: int) -> Option<int>
    decreases k + 1,
{
    if k < 0 {
        None
    } else if marks[k] {
        Some(k)
    } else {
        marked_ancestor(marks, k - 1)
    }
}

/// Goes up to the nearest strict ancestor that holds a `.git` directory.
/// `marks[k]` tells whether the ancestor with `k` segments holds one.
pub fn git_search_upward(fromdir: &mut DirPath, marks: &Vec<bool>) -> (r: Result<(), UpError>)
    requires
        marks@.len() == old(fromdir)@.len(),
    ensures
        match marked_ancestor(marks@, old(fromdir)@.len() - 1) {
            Some(k) => r == Ok::<(), UpError>(()) && final(fromdir)@ == old(fromdir)@.take(k),
            None => r == Err::<(), UpError>(UpError::NoMatch) && final(fromdir)@.len() == 0,
        },
{
    let ghost segs = fromdir@;
    assert(segs.take(segs.len() as int) =~= segs);
    loop
        invariant
            fromdir@.len() <= segs.len(),
            fromdir@ == segs.take(fromdir@.len() as int),
            segs == old(fromdir)@,
            marks@.len() == segs.len(),
            marked_ancestor(marks@, segs.len() - 1) == marked_ancestor(
                marks@,
                fromdir@.len() - 1,
            ),
        decreases fromdir@.len(),
    {
        if !fromdir.pop() {
            return Err(UpError::NoMatch);
        }
        assert(fromdir@ =~= segs.take(fromdir@.len() as int));
        if marks[fromdir.len()] {
            return Ok(());
        }
    }
}

/// Goes up the number of levels that `rule_value` spells; the path stays
/// as it is when `rule_value` is not a count.
pub fn handle_n(fromdir: &mut DirPath, rule_value: &str) -> (r: Result<(), UpError>)
    ensures
        is_count(rule_value@) ==> r == Ok::<(), UpError>(()) && final(fromdir)@ == climbed(
            old(fromdir)@,
            digits_value(count_digits(rule_value@)),
        ),
        !is_count(rule_value@) ==> r == Err::<(), UpError>(UpError::InvalidCount) && final(fromdir)@ == old(fromdir)@,
{
    match parse_count(rule_value) {
        Some(n) => {
            upward_atmost(fromdir, n);
            Ok(())
        },
        None => Err(UpError::InvalidCount),
    }
}

/// Goes up to the nearest strict ancestor named exactly `rule_value`.
pub fn handle_raw(fromdir: &mut DirPath, rule_value: &str) -> (r: Result<(), UpError>)
    ensures
        final(fromdir)@ == old(fromdir)@.take(
            search(old(fromdir)@, raw_probe(rule_value.spec_bytes())).0,
        ),
        r == search(old(fromdir)@, raw_probe(rule_value.spec_bytes())).1,
{
    raw_search_upward(fromdir, rule_value)
}

/// Compiles `rule_value` as a glob pattern and goes up to the nearest
/// strict ancestor whose name it matches.
pub fn handle_glob(fromdir: &mut DirPath, rule_value: &str) -> (r: Result<(), UpError>)
    ensures
        !glob_accepts(rule_value@) ==> r == Err::<(), UpError>(UpError::InvalidPattern) && final(fromdir)@ == old(fromdir)@,
        glob_accepts(rule_value@) ==> final(fromdir)@ == old(fromdir)@.take(
            search(old(fromdir)@, glob_probe(rule_value@)).0,
        ) && r == search(old(fromdir)@, glob_probe(rule_value@)).1,
{
    let pattern = GlobRule::new(rule_value)?;
    glob_search_upward(fromdir, &pattern)
}

/// Compiles `rule_value` as a regular expression and goes up to the nearest
/// strict ancestor in whose name it finds a match.
pub fn handle_regex(fromdir: &mut DirPath, rule_value: &str) -> (r: Result<(), UpError>)
    ensures
        !regex_accepts(rule_value@) ==> r == Err::<(), UpError>(UpError::InvalidPattern) && final(fromdir)@ == old(fromdir)@,
        regex_accepts(rule_value@) ==> final(fromdir)@ == old(fromdir)@.take(
            search(old(fromdir)@, regex_probe(rule_value@)).0,
        ) && r == search(old(fromdir)@, regex_probe(rule_value@)).1,
{
    let pattern = RegexRule::new(rule_value)?;
    regex_search_upward(fromdir, &pattern)
}

/// Goes up to the nearest strict ancestor that holds a `.git` directory,
/// `marks` telling which ancestors hold one.
pub fn handle_git(fromdir: &mut DirPath, marks: &Vec<bool>) -> (r: Result<(), UpError>)
    requires
        marks@.len() == old(fromdir)@.len(),
    ensures
        match marked_ancestor(marks@, old(fromdir)@.len() - 1) {
            Some(k) => r == Ok::<(), UpError>(()) && final(fromdir)@ == old(fromdir)@.take(k),
            None => r == Err::<(), UpError>(UpError::NoMatch) && final(fromdir)@.len() == 0,
        },
{
    git_search_upward(fromdir, marks)
}

proof fn lemma_walk_up_bounds(segs: Seq<Seq<u8>>, k: int, probe: spec_fn(Seq<u8>) -> Probe)
    requires
        k < segs.len(),
    ensures
        0 <= walk_up(segs, k, probe).0 <= if k < 0 { 0 } else { k },
        walk_up(segs, k, probe).1 is Ok ==> 1 <= walk_up(segs, k, probe).0,
    decreases k,
{
    if k > 0 {
        lemma_walk_up_bounds(segs, k - 1, probe);
    }
}

proof fn lemma_walk_up_unmatched(segs: Seq<Seq<u8>>, k: int, probe: spec_fn(Seq<u8>) -> Probe)
    requires
        k <= segs.len(),
        forall|j: int|
            0 <= j < k ==> probe(#[trigger] segs[j]) == Probe::Pass || probe(segs[j])
                == Probe::Halt,
    ensures
        walk_up(segs, k, probe).1 == Err::<(), UpError>(UpError::NoMatch),
    decreases k,
{
    if k > 0 {
        lemma_walk_up_unmatched(segs, k - 1, probe);
    }
}

/// Going up `n` levels from a path of `k` segments leaves `max(k - n, 0)`
/// segments, an ancestor of the path; the result can be popped further
/// exactly when it still has a segment.
pub proof fn law_count_levels(segs: Seq<Seq<u8>>, n: nat)
    ensures
        climbed(segs, n).len() == if n <= segs.len() { segs.len() - n } else { 0 },
        climbed(segs, n) == segs.take(climbed(segs, n).len() as int),
        DirPath::can_pop(climbed(segs, n)) <==> climbed(segs, n).len() > 0,
{
    if n > segs.len() {
        assert(segs.take(0) =~= Seq::<Seq<u8>>::empty());
    }
}

/// A search by name, glob or regex that succeeds stops at a strict ancestor
/// of where it started: never at the directory itself, never below it.
pub proof fn law_search_is_ancestor_seeking(
    segs: Seq<Seq<u8>>,
    probe: spec_fn(Seq<u8>) -> Probe,
)
    ensures
        search(segs, probe).1 is Ok ==> 1 <= search(segs, probe).0 < segs.len(),
        segs.len() > 0 ==> search(segs, probe).0 < segs.len(),
        segs.len() == 0 ==> search(segs, probe).0 == 0,
{
    lemma_walk_up_bounds(segs, segs.len() - 1, probe);
}

/// When no ancestor of a path is named `name`, the search by that name
/// fails without a match from the path and from each of its ancestors.
pub proof fn law_raw_no_match_persists(segs: Seq<Seq<u8>>, m: int, name: Seq<u8>)
    requires
        search(segs, raw_probe(name)).1 == Err::<(), UpError>(UpError::NoMatch),
        0 <= m < segs.len(),
        forall|i: int| 0 <= i < m ==> segs[i] != name,
    ensures
        search(segs.take(m), raw_probe(name)).1 == Err::<(), UpError>(UpError::NoMatch),
{
    let shorter = segs.take(m);
    assert forall|j: int| 0 <= j < shorter.len() - 1 implies raw_probe(name)(#[trigger] shorter[j])
        == Probe::Pass || raw_probe(name)(shorter[j]) == Probe::Halt by {
        assert(shorter[j] == segs[j]);
    }
    lemma_walk_up_unmatched(shorter, shorter.len() - 1, raw_probe(name));
}

/// Where the walk by `rule` with argument `value` ends from `segs`, and
/// what it returns; `marks` tells which ancestors hold a `.git` directory.
pub open spec fn upward_outcome(
    rule: RuleType,
    value: Seq<char>,
    segs: Seq<Seq<u8>>,
    marks: Seq<bool>,
) -> (Seq<Seq<u8>>, Result<(), UpError>) {
    match rule {
        RuleType::N => if is_count(value) {
            (climbed(segs, digits_value(count_digits(value))), Ok(()))
        } else {
            (segs, Err(UpError::InvalidCount))
        },
        RuleType::Raw => (
            segs.take(search(segs, raw_probe(encode_utf8(value))).0),
            search(segs, raw_probe(encode_utf8(value))).1,
        ),
        RuleType::Glob => if glob_accepts(value) {
            (segs.take(search(segs, glob_probe(value)).0), search(segs, glob_probe(value)).1)
        } else {
            (segs, Err(UpError::InvalidPattern))
        },
        RuleType::Regex => if regex_accepts(value) {
            (segs.take(search(segs, regex_probe(value)).0), search(segs, regex_probe(value)).1)
        } else {
            (segs, Err(UpError::InvalidPattern))
        },
        RuleType::Git => match marked_ancestor(marks, segs.len() - 1) {
            Some(k) => (segs.take(k), Ok(())),
            None => (Seq::empty(), Err(UpError::NoMatch)),
        },
    }
}

/// Walks up by the rule `rule_type` with argument `rule_value`. `marks` is
/// read by the `.git` rule alone, and then holds one entry per ancestor.
pub fn resolve_upward(
    fromdir: &mut DirPath,
    rule_type: RuleType,
    rule_value: &str,
    marks: &Vec<bool>,
) -> (r: Result<(), UpError>)
    requires
        rule_type == RuleType::Git ==> marks@.len() == old(fromdir)@.len(),
    ensures
        (final(fromdir)@, r) == upward_outcome(rule_type, rule_value@, old(fromdir)@, marks@),
{
    let ghost segs = fromdir@;
    let r = match rule_type {
        RuleType::N => handle_n(fromdir, rule_value),
        RuleType::Raw => handle_raw(fromdir, rule_value),
        RuleType::Glob => handle_glob(fromdir, rule_value),
        RuleType::Regex => handle_regex(fromdir, rule_value),
        RuleType::Git => handle_git(fromdir, marks),
    };
    proof {
        let expected = upward_outcome(rule_type, rule_value@, segs, marks@);
        if rule_type == RuleType::Git && marked_ancestor(marks@, segs.len() - 1) is None {
            assert(fromdir@ =~= Seq::<Seq<u8>>::empty());
        }
        assert(fromdir@ == expected.0);
        assert(r == expected.1);
    }
    r
}

} // verus!
