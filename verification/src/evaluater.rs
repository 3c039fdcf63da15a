use vstd::prelude::*;
use std::collections::BTreeMap;
use crate::numbers::{
    IntParseError, decimal, int_parse_error_text, parse_i32, parse_i32_spec, parse_u32, parse_u32_spec,
    push_decimal, push_signed_decimal, signed_decimal, is_ascii_digit, lemma_decimal_digits,
    lemma_parse_i32_reads_decimal, lemma_parse_u32_reads_decimal,
};
use crate::text::{
    is_white_space, lemma_split_join, lemma_split_space_free, lemma_trim_line, space_free,
    split_spaces, trim, trimmed, trimmed_pieces,
};

verus! {

broadcast use {vstd::std_specs::btree::group_btree_axioms, vstd::laws_cmp::group_laws_cmp};

/// The class of a tag, as numbered by the evaluation process.
#[derive(Debug, Clone, Copy, PartialEq, Eq, Structural)]
pub enum TagClass {
    General,
    Artist,
    Unknown,
    Copyright,
    Character,
    Meta,
}

/// The class that the evaluation process means by the number `num`.
pub open spec fn tag_class_of(num: u32) -> TagClass {
    if num == 0 {
        TagClass::General
    } else if num == 1 {
        TagClass::Artist
    } else if num == 3 {
        TagClass::Copyright
    } else if num == 4 {
        TagClass::Character
    } else if num == 5 {
        TagClass::Meta
    } else {
        TagClass::Unknown
    }
}

impl TagClass {
    /// Maps a class number to its class; every number without a class of
    /// its own is `Unknown`.
    pub fn from_num(num: u32) -> (class: TagClass)
        ensures
            class == tag_class_of(num),
    {
        match num {
            0 => TagClass::General,
            1 => TagClass::Artist,
            3 => TagClass::Copyright,
            4 => TagClass::Character,
            5 => TagClass::Meta,
            _ => TagClass::Unknown,
        }
    }
}


/// How talking to the evaluation process failed.
#[derive(Debug, Clone)]
pub enum EvaluaterError {
    /// The process could not be started, or its start-up exchange failed.
    FailedCreatingEvaluater,
    /// The process could not fetch the picture.
    FailedRequesting,
    /// The process could not retrieve the picture's content.
    FailedRetreiving,
    /// The process could not open the content as a picture.
    FailedOpening,
    /// Anything else, with a description.
    FailedEvaluating(String),
}

/// Whether `e` is a `FailedEvaluating` error with the description `msg`.
pub open spec fn is_failed_evaluating(e: EvaluaterError, msg: Seq<char>) -> bool {
    e matches EvaluaterError::FailedEvaluating(m) && m@ == msg
}

/// Whether `e` is the error that the process's failure code `code` means:
/// the codes -1, -2 and -3 have errors of their own, every other code is
/// described as an unknown error.
pub open spec fn is_error_for_code(e: EvaluaterError, code: i32) -> bool {
    if code == -1 {
        e is FailedRequesting
    } else if code == -2 {
        e is FailedRetreiving
    } else if code == -3 {
        e is FailedOpening
    } else {
        is_failed_evaluating(e, "Unknown Error "@ + signed_decimal(code as int))
    }
}

/// The error that the evaluation process means by the failure code `erronno`.
pub fn errorno_to_error(erronno: i32) -> (e: EvaluaterError)
    ensures
        is_error_for_code(e, erronno),
{
    match erronno {
        -1 => EvaluaterError::FailedRequesting,
        -2 => EvaluaterError::FailedRetreiving,
        -3 => EvaluaterError::FailedOpening,
        _ => {
            let mut m = "Unknown Error ".to_owned();
            push_signed_decimal(&mut m, erronno);
            EvaluaterError::FailedEvaluating(m)
        },
    }
}

// ---------------------------------------------------------------------
// The tags that the evaluation process knows
// ---------------------------------------------------------------------

/// The tags that the evaluation process announced at start-up: for each tag
/// number, its name and its class.
pub struct TagTable {
    pub tags: BTreeMap<u32, (String, TagClass)>,
}

impl View for TagTable {
    type V = Map<u32, (Seq<char>, TagClass)>;

    open spec fn view(&self) -> Map<u32, (Seq<char>, TagClass)> {
        self.tags@.map_values(|e: (String, TagClass)| (e.0@, e.1))
    }
}

/// The name under which a tag number that the table lacks is shown.
pub open spec fn unknown_tag_name(num: u32) -> Seq<char> {
    "(Unknown Tag "@ + decimal(num as nat)
}

/// The name and class shown for the tag number `num`.
pub open spec fn resolved_tag(table: Map<u32, (Seq<char>, TagClass)>, num: u32) -> (
    Seq<char>,
    TagClass,
) {
    if table.contains_key(num) {
        table[num]
    } else {
        (unknown_tag_name(num), TagClass::Unknown)
    }
}

impl TagTable {
    /// A table without tags.
    pub fn new() -> (t: TagTable)
        ensures
            t@ == Map::<u32, (Seq<char>, TagClass)>::empty(),
    {
        let t = TagTable { tags: BTreeMap::new() };
        assert(t@ =~= Map::<u32, (Seq<char>, TagClass)>::empty());
        t
    }

    /// Records the tag `num` under `name` and `class`, in place of any
    /// earlier entry for the same number.
    pub fn insert(&mut self, num: u32, name: String, class: TagClass)
        ensures
            final(self)@ == old(self)@.insert(num, (name@, class)),
    {
        let ghost n = name@;
        self.tags.insert(num, (name, class));
        assert(self@ =~= old(self)@.insert(num, (n, class)));
    }

    /// The name and class of the tag `num`; a number that the table lacks
    /// gets a placeholder name and the class `Unknown`.
    pub fn resolve(&self, num: u32) -> (r: (String, TagClass))
        ensures
            (r.0@, r.1) == resolved_tag(self@, num),
    {
        match self.tags.get(&num) {
            Some(entry) => (entry.0.clone(), entry.1),
            None => {
                let mut name = "(Unknown Tag ".to_owned();
                push_decimal(&mut name, num as u64);
                (name, TagClass::Unknown)
            },
        }
    }
}

/// A tag number reads back the name and class last recorded for it, and
/// recording it changes no other tag number.
pub proof fn lemma_resolve_after_insert(
    table: Map<u32, (Seq<char>, TagClass)>,
    num: u32,
    name: Seq<char>,
    class: TagClass,
    other: u32,
)
    ensures
        resolved_tag(table.insert(num, (name, class)), num) == (name, class),
        other != num ==> resolved_tag(table.insert(num, (name, class)), other) == resolved_tag(
            table,
            other,
        ),
{
}

// ---------------------------------------------------------------------
// The lines that the evaluation process writes
// ---------------------------------------------------------------------

/// Whether `line` is the line by which the process says that it is ready.
pub fn is_ready_line(line: &str) -> (b: bool)
    ensures
        b == (line@ == "---ready---\n"@),
{
    line.to_owned() == "---ready---\n".to_owned()
}

/// What the start-up exchange makes of the line that gives the number of tag
/// definitions: its trimmed text must be an `i32`; a negative number means
/// that no definition follows.
pub open spec fn tag_listing_length_spec(line: Seq<char>) -> Option<u32> {
    match parse_i32_spec(trim(line)) {
        Ok(n) => Some(
            if n < 0 {
                0
            } else {
                n as u32
            },
        ),
        Err(_) => None,
    }
}

/// The number of tag definitions that follow the line `line`.
pub fn tag_listing_length(line: &str) -> (r: Result<u32, EvaluaterError>)
    ensures
        match r {
            Ok(n) => tag_listing_length_spec(line@) == Some(n),
            Err(e) => tag_listing_length_spec(line@) is None && e is FailedCreatingEvaluater,
        },
{
    match parse_i32(trimmed(line)) {
        Ok(n) => {
            if n < 0 {
                Ok(0)
            } else {
                Ok(n as u32)
            }
        },
        Err(_) => Err(EvaluaterError::FailedCreatingEvaluater),
    }
}

/// What a tag definition line holds: after trimming, three pieces separated
/// by single spaces, the tag number, its name and its class number.
pub open spec fn tag_definition_spec(line: Seq<char>) -> Option<(u32, Seq<char>, TagClass)> {
    let p = split_spaces(trim(line));
    if p.len() != 3 {
        None
    } else {
        match (parse_u32_spec(p[0]), parse_u32_spec(p[2])) {
            (Ok(num), Ok(class)) => Some((num, p[1], tag_class_of(class))),
            _ => None,
        }
    }
}

/// Reads a tag definition line.
pub fn parse_tag_definition(line: &str) -> (r: Result<(u32, String, TagClass), EvaluaterError>)
    ensures
        match r {
            Ok(d) => tag_definition_spec(line@) == Some((d.0, d.1@, d.2)),
            Err(e) => tag_definition_spec(line@) is None && e is FailedCreatingEvaluater,
        },
{
    let pieces = trimmed_pieces(line);
    assert(pieces.len() == pieces.deep_view().len());
    if pieces.len() != 3 {
        return Err(EvaluaterError::FailedCreatingEvaluater);
    }
    assert(pieces.deep_view()[0] == pieces[0]@);
    assert(pieces.deep_view()[1] == pieces[1]@);
    assert(pieces.deep_view()[2] == pieces[2]@);
    let num = match parse_u32(pieces[0].as_str()) {
        Ok(n) => n,
        Err(_) => return Err(EvaluaterError::FailedCreatingEvaluater),
    };
    let class = match parse_u32(pieces[2].as_str()) {
        Ok(n) => n,
        Err(_) => return Err(EvaluaterError::FailedCreatingEvaluater),
    };
    Ok((num, pieces[1].clone(), TagClass::from_num(class)))
}

/// The text that starts the description of a reply that could not be read.
pub open spec fn parse_failure_prefix() -> Seq<char> {
    "Error parsing requested data from child: "@
}

/// The description of a score line that does not have two pieces.
pub open spec fn wrong_shape_text() -> Seq<char> {
    "Error parsing requested data from child: Incorrect format, too many value"@
}

/// What a score line holds: after trimming, two pieces separated by a single
/// space, the tag number and the text of the confidence.
pub open spec fn score_line_spec(line: Seq<char>) -> Result<(u32, Seq<char>), Seq<char>> {
    let p = split_spaces(trim(line));
    if p.len() != 2 {
        Err(wrong_shape_text())
    } else {
        match parse_u32_spec(p[0]) {
            Ok(num) => Ok((num, p[1])),
            Err(pe) => Err(parse_failure_prefix() + int_parse_error_text(pe)),
        }
    }
}

/// Reads a score line into the tag number and the text of its confidence.
pub fn parse_score_line(line: &str) -> (r: Result<(u32, String), EvaluaterError>)
    ensures
        match r {
            Ok(s) => score_line_spec(line@) == Ok::<(u32, Seq<char>), Seq<char>>((s.0, s.1@)),
            Err(e) => match score_line_spec(line@) {
                Ok(_) => false,
                Err(msg) => is_failed_evaluating(e, msg),
            },
        },
{
    let pieces = trimmed_pieces(line);
    assert(pieces.len() == pieces.deep_view().len());
    if pieces.len() != 2 {
        let m = "Error parsing requested data from child: Incorrect format, too many value".to_owned();
        return Err(EvaluaterError::FailedEvaluating(m));
    }
    assert(pieces.deep_view()[0] == pieces[0]@);
    assert(pieces.deep_view()[1] == pieces[1]@);
    match parse_u32(pieces[0].as_str()) {
        Ok(num) => Ok((num, pieces[1].clone())),
        Err(pe) => {
            let mut m = "Error parsing requested data from child: ".to_owned();
            m.append(pe.message());
            Err(EvaluaterError::FailedEvaluating(m))
        },
    }
}

// ---------------------------------------------------------------------
// The start-up exchange with the evaluation process
// ---------------------------------------------------------------------

/// Where the start-up exchange stands.
#[derive(Debug, Clone, Copy, PartialEq, Eq, Structural)]
pub enum StartupPhase {
    /// Reading lines until the process says that it is ready.
    AwaitingReady,
    /// The tag request is sent; reading the number of tag definitions.
    AwaitingCount,
    /// Reading tag definitions, `left` of them still to come.
    ReadingTags { left: u32 },
    /// The exchange is over.
    Finished,
}

/// What the caller does next in the start-up exchange.
#[derive(Debug)]
pub enum StartupAction {
    /// Read the next line from the process.
    ReadLine,
    /// Send the tag request (the line `tags`), then read the next line.
    SendTagsRequest,
    /// The exchange succeeded: the tag table is complete.
    Done,
    /// The exchange failed with this error.
    Fail(EvaluaterError),
}

/// The start-up exchange: its phase and the tags read so far.
pub struct StartupSession {
    pub phase: StartupPhase,
    pub tags: TagTable,
}

/// The phase that follows `phase` when the process writes `line`, and the
/// table that follows `tags`.
pub open spec fn startup_next(
    phase: StartupPhase,
    tags: Map<u32, (Seq<char>, TagClass)>,
    line: Seq<char>,
) -> (StartupPhase, Map<u32, (Seq<char>, TagClass)>) {
    match phase {
        StartupPhase::AwaitingReady => {
            if line == "---ready---\n"@ {
                (StartupPhase::AwaitingCount, tags)
            } else {
                (StartupPhase::AwaitingReady, tags)
            }
        },
        StartupPhase::AwaitingCount => match tag_listing_length_spec(line) {
            Some(n) => if n == 0 {
                (StartupPhase::Finished, tags)
            } else {
                (StartupPhase::ReadingTags { left: n }, tags)
            },
            None => (StartupPhase::Finished, tags),
        },
        StartupPhase::ReadingTags { left } => match tag_definition_spec(line) {
            Some(d) => {
                let t = tags.insert(d.0, (d.1, d.2));
                if left <= 1 {
                    (StartupPhase::Finished, t)
                } else {
                    (StartupPhase::ReadingTags { left: (left - 1) as u32 }, t)
                }
            },
            None => (StartupPhase::Finished, tags),
        },
        StartupPhase::Finished => (StartupPhase::Finished, tags),
    }
}

/// Whether `action` is what the caller is asked to do when the process
/// writes `line` in the phase `phase`: keep reading, send the tag request
/// once ready, stop with success when the last definition is read (or none
/// is announced), and stop with `FailedCreatingEvaluater` on a line that
/// cannot be read.
pub open spec fn startup_action_ok(phase: StartupPhase, line: Seq<char>, action: StartupAction) -> bool {
    match phase {
        StartupPhase::AwaitingReady => if line == "---ready---\n"@ {
            action is SendTagsRequest
        } else {
            action is ReadLine
        },
        StartupPhase::AwaitingCount => match tag_listing_length_spec(line) {
            Some(n) => if n == 0 {
                action is Done
            } else {
                action is ReadLine
            },
            None => action matches StartupAction::Fail(e) && e is FailedCreatingEvaluater,
        },
        StartupPhase::ReadingTags { left } => match tag_definition_spec(line) {
            Some(_) => if left <= 1 {
                action is Done
            } else {
                action is ReadLine
            },
            None => action matches StartupAction::Fail(e) && e is FailedCreatingEvaluater,
        },
        StartupPhase::Finished => action is Done,
    }
}

impl StartupSession {
    /// A start-up exchange that waits for the process to be ready.
    pub fn new() -> (s: StartupSession)
        ensures
            s.phase == StartupPhase::AwaitingReady,
            s.tags@ == Map::<u32, (Seq<char>, TagClass)>::empty(),
    {
        StartupSession { phase: StartupPhase::AwaitingReady, tags: TagTable::new() }
    }

    /// Takes in the line `line` that the process wrote, and says what to do
    /// next.
    pub fn on_line(&mut self, line: &str) -> (action: StartupAction)
        ensures
            (final(self).phase, final(self).tags@) == startup_next(
                old(self).phase,
                old(self).tags@,
                line@,
            ),
            startup_action_ok(old(self).phase, line@, action),
    {
        match self.phase {
            StartupPhase::AwaitingReady => {
                if is_ready_line(line) {
                    self.phase = StartupPhase::AwaitingCount;
                    StartupAction::SendTagsRequest
                } else {
                    StartupAction::ReadLine
                }
            },
            StartupPhase::AwaitingCount => match tag_listing_length(line) {
                Ok(n) => {
                    if n == 0 {
                        self.phase = StartupPhase::Finished;
                        StartupAction::Done
                    } else {
                        self.phase = StartupPhase::ReadingTags { left: n };
                        StartupAction::ReadLine
                    }
                },
                Err(e) => {
                    self.phase = StartupPhase::Finished;
                    StartupAction::Fail(e)
                },
            },
            StartupPhase::ReadingTags { left } => match parse_tag_definition(line) {
                Ok((num, name, class)) => {
                    self.tags.insert(num, name, class);
                    if left <= 1 {
                        self.phase = StartupPhase::Finished;
                        StartupAction::Done
                    } else {
                        self.phase = StartupPhase::ReadingTags { left: left - 1 };
                        StartupAction::ReadLine
                    }
                },
                Err(e) => {
                    self.phase = StartupPhase::Finished;
                    StartupAction::Fail(e)
                },
            },
            StartupPhase::Finished => StartupAction::Done,
        }
    }
}

// ---------------------------------------------------------------------
// The answer of the evaluation process to one picture
// ---------------------------------------------------------------------

/// Where the reading of an evaluation answer stands.
#[derive(Debug, Clone, Copy, PartialEq, Eq, Structural)]
pub enum EvaluationPhase {
    /// Reading the line that gives the number of scores.
    AwaitingCount,
    /// Reading score lines, `left` of them still to come.
    ReadingScores { left: u32 },
    /// The answer is read, or could not be.
    Finished,
}

/// What the caller does next while reading an evaluation answer.
#[derive(Debug)]
pub enum EvaluationAction {
    /// Read the next line.
    ReadLine,
    /// The answer is complete: the scores are all collected.
    Done,
    /// The process could not evaluate the picture and gave this (negative)
    /// failure code.
    Refused(i32),
    /// The answer could not be read, for this reason.
    Fail(EvaluaterError),
}

/// The reading of an evaluation answer: its phase, and the scores read so
/// far, each a tag number with the text of its confidence.
pub struct EvaluationSession {
    pub phase: EvaluationPhase,
    pub scores: Vec<(u32, String)>,
}

/// The scores `v` as tag numbers with confidence texts.
pub open spec fn scores_view(v: Seq<(u32, String)>) -> Seq<(u32, Seq<char>)> {
    v.map_values(|e: (u32, String)| (e.0, e.1@))
}

/// The phase that follows `phase` when the process writes `line`, and the
/// scores that follow `scores`: a score line adds its score at the end.
pub open spec fn evaluation_next(
    phase: EvaluationPhase,
    scores: Seq<(u32, Seq<char>)>,
    line: Seq<char>,
) -> (EvaluationPhase, Seq<(u32, Seq<char>)>) {
    match phase {
        EvaluationPhase::AwaitingCount => match parse_i32_spec(trim(line)) {
            Ok(n) => if n <= 0 {
                (EvaluationPhase::Finished, scores)
            } else {
                (EvaluationPhase::ReadingScores { left: n as u32 }, scores)
            },
            Err(_) => (EvaluationPhase::Finished, scores),
        },
        EvaluationPhase::ReadingScores { left } => match score_line_spec(line) {
            Ok(sc) => if left <= 1 {
                (EvaluationPhase::Finished, scores.push(sc))
            } else {
                (EvaluationPhase::ReadingScores { left: (left - 1) as u32 }, scores.push(sc))
            },
            Err(_) => (EvaluationPhase::Finished, scores),
        },
        EvaluationPhase::Finished => (EvaluationPhase::Finished, scores),
    }
}

/// Whether `action` is what the caller is asked to do when the process
/// writes `line` in the phase `phase`: a negative count is the process's
/// failure code, a count of zero ends the answer, the last score line ends
/// it, and a line that cannot be read ends it with its description.
pub open spec fn evaluation_action_ok(
    phase: EvaluationPhase,
    line: Seq<char>,
    action: EvaluationAction,
) -> bool {
    match phase {
        EvaluationPhase::AwaitingCount => match parse_i32_spec(trim(line)) {
            Ok(n) => if n < 0 {
                action matches EvaluationAction::Refused(c) && c == n
            } else if n == 0 {
                action is Done
            } else {
                action is ReadLine
            },
            Err(pe) => action matches EvaluationAction::Fail(e) && is_failed_evaluating(
                e,
                parse_failure_prefix() + int_parse_error_text(pe),
            ),
        },
        EvaluationPhase::ReadingScores { left } => match score_line_spec(line) {
            Ok(_) => if left <= 1 {
                action is Done
            } else {
                action is ReadLine
            },
            Err(msg) => action matches EvaluationAction::Fail(e) && is_failed_evaluating(e, msg),
        },
        EvaluationPhase::Finished => action is Done,
    }
}

impl EvaluationSession {
    /// The reading of an answer that starts with the number of scores.
    pub fn new() -> (s: EvaluationSession)
        ensures
            s.phase == EvaluationPhase::AwaitingCount,
            scores_view(s.scores@) == Seq::<(u32, Seq<char>)>::empty(),
    {
        let s = EvaluationSession { phase: EvaluationPhase::AwaitingCount, scores: Vec::new() };
        assert(scores_view(s.scores@) =~= Seq::<(u32, Seq<char>)>::empty());
        s
    }

    /// Takes in the line `line` that the process wrote, and says what to do
    /// next.
    pub fn on_line(&mut self, line: &str) -> (action: EvaluationAction)
        ensures
            (final(self).phase, scores_view(final(self).scores@)) == evaluation_next(
                old(self).phase,
                scores_view(old(self).scores@),
                line@,
            ),
            evaluation_action_ok(old(self).phase, line@, action),
    {
        match self.phase {
            EvaluationPhase::AwaitingCount => match parse_i32(trimmed(line)) {
                Ok(n) => {
                    if n < 0 {
                        self.phase = EvaluationPhase::Finished;
                        EvaluationAction::Refused(n)
                    } else if n == 0 {
                        self.phase = EvaluationPhase::Finished;
                        EvaluationAction::Done
                    } else {
                        self.phase = EvaluationPhase::ReadingScores { left: n as u32 };
                        EvaluationAction::ReadLine
                    }
                },
                Err(pe) => {
                    self.phase = EvaluationPhase::Finished;
                    let mut m = "Error parsing requested data from child: ".to_owned();
                    m.append(pe.message());
                    EvaluationAction::Fail(EvaluaterError::FailedEvaluating(m))
                },
            },
            EvaluationPhase::ReadingScores { left } => match parse_score_line(line) {
                Ok(sc) => {
                    let ghost before = self.scores@;
                    let ghost sv = (sc.0, sc.1@);
                    self.scores.push(sc);
                    assert(scores_view(self.scores@) =~= scores_view(before).push(sv));
                    if left <= 1 {
                        self.phase = EvaluationPhase::Finished;
                        EvaluationAction::Done
                    } else {
                        self.phase = EvaluationPhase::ReadingScores { left: left - 1 };
                        EvaluationAction::ReadLine
                    }
                },
                Err(e) => {
                    self.phase = EvaluationPhase::Finished;
                    EvaluationAction::Fail(e)
                },
            },
            EvaluationPhase::Finished => EvaluationAction::Done,
        }
    }
}

// ---------------------------------------------------------------------
// Laws of the two exchanges
// ---------------------------------------------------------------------

/// A count line announcing `n >= 0` tag definitions makes the start-up
/// exchange expect exactly `n` of them: none means the exchange is over,
/// otherwise it asks for the next line and waits for `n` definitions.
pub proof fn lemma_tag_count_exact(
    line: Seq<char>,
    n: i32,
    tags: Map<u32, (Seq<char>, TagClass)>,
    action: StartupAction,
)
    requires
        parse_i32_spec(trim(line)) == Ok::<i32, IntParseError>(n),
        n >= 0,
    ensures
        tag_listing_length_spec(line) matches Some(k) && k as int == n as int,
        n > 0 ==> (startup_next(StartupPhase::AwaitingCount, tags, line) matches (
            StartupPhase::ReadingTags { left },
            t,
        ) && left as int == n as int && t == tags),
        n > 0 ==> startup_action_ok(StartupPhase::AwaitingCount, line, action) ==> action is ReadLine,
        n == 0 ==> startup_next(StartupPhase::AwaitingCount, tags, line).0 == StartupPhase::Finished,
        n == 0 ==> startup_action_ok(StartupPhase::AwaitingCount, line, action) ==> action is Done,
{
}

/// The start-up exchange from the phase `phase`, the table `tags`, through
/// the lines `lines`, one after the other.
pub open spec fn startup_run(
    phase: StartupPhase,
    tags: Map<u32, (Seq<char>, TagClass)>,
    lines: Seq<Seq<char>>,
) -> (StartupPhase, Map<u32, (Seq<char>, TagClass)>)
    decreases lines.len(),
{
    if lines.len() == 0 {
        (phase, tags)
    } else {
        let next = startup_next(phase, tags, lines[0]);
        startup_run(next.0, next.1, lines.drop_first())
    }
}

/// With `left` definitions to come, each definition line counts down by one
/// and records its tag; the exchange ends exactly with the last one.
pub proof fn lemma_tags_counted_down(
    left: u32,
    tags: Map<u32, (Seq<char>, TagClass)>,
    line: Seq<char>,
    action: StartupAction,
)
    requires
        left >= 1,
        tag_definition_spec(line) is Some,
    ensures
        ({
            let d = tag_definition_spec(line)->0;
            let next = startup_next(StartupPhase::ReadingTags { left }, tags, line);
            &&& next.1 == tags.insert(d.0, (d.1, d.2))
            &&& left == 1 ==> next.0 == StartupPhase::Finished
            &&& left > 1 ==> (next.0 matches StartupPhase::ReadingTags { left: l } && l + 1 == left)
        }),
        startup_action_ok(StartupPhase::ReadingTags { left }, line, action) ==> (if left == 1 {
            action is Done
        } else {
            action is ReadLine
        }),
{
}

/// After `m` of `k` announced definitions (all well formed), `k - m` remain;
/// after all `k`, the exchange is over.
pub proof fn lemma_startup_reads_all_definitions(
    k: u32,
    tags: Map<u32, (Seq<char>, TagClass)>,
    lines: Seq<Seq<char>>,
)
    requires
        1 <= k,
        lines.len() <= k,
        forall|i: int| 0 <= i < lines.len() ==> tag_definition_spec(#[trigger] lines[i]) is Some,
    ensures
        lines.len() < k ==> (startup_run(StartupPhase::ReadingTags { left: k }, tags, lines).0
            matches StartupPhase::ReadingTags { left } && left + lines.len() == k),
        lines.len() == k ==> startup_run(StartupPhase::ReadingTags { left: k }, tags, lines).0
            == StartupPhase::Finished,
    decreases lines.len(),
{
    if lines.len() > 0 {
        let next = startup_next(StartupPhase::ReadingTags { left: k }, tags, lines[0]);
        let rest = lines.drop_first();
        assert forall|i: int| 0 <= i < rest.len() implies tag_definition_spec(
            #[trigger] rest[i],
        ) is Some by {
            assert(rest[i] == lines[i + 1]);
        }
        if k > 1 {
            lemma_startup_reads_all_definitions((k - 1) as u32, next.1, rest);
        } else {
            assert(rest.len() == 0);
            assert(startup_run(next.0, next.1, rest) == (next.0, next.1));
        }
    }
}

/// A count line announcing `n` scores: a negative `n` is the process's
/// failure code, zero ends the answer, and `n > 0` makes the answer expect
/// exactly `n` score lines, asking for the next line.
pub proof fn lemma_score_count_exact(
    line: Seq<char>,
    n: i32,
    scores: Seq<(u32, Seq<char>)>,
    action: EvaluationAction,
)
    requires
        parse_i32_spec(trim(line)) == Ok::<i32, IntParseError>(n),
    ensures
        n > 0 ==> (evaluation_next(EvaluationPhase::AwaitingCount, scores, line) matches (
            EvaluationPhase::ReadingScores { left },
            s,
        ) && left as int == n as int && s == scores),
        n > 0 ==> evaluation_action_ok(EvaluationPhase::AwaitingCount, line, action)
            ==> action is ReadLine,
        n == 0 ==> evaluation_next(EvaluationPhase::AwaitingCount, scores, line) == (
            EvaluationPhase::Finished,
            scores,
        ),
        n == 0 ==> evaluation_action_ok(EvaluationPhase::AwaitingCount, line, action)
            ==> action is Done,
        n < 0 ==> evaluation_action_ok(EvaluationPhase::AwaitingCount, line, action)
            ==> (action matches EvaluationAction::Refused(c) && c == n),
{
}

/// The reading of an answer from the phase `phase` and the scores `scores`
/// through the lines `lines`, one after the other.
pub open spec fn evaluation_run(
    phase: EvaluationPhase,
    scores: Seq<(u32, Seq<char>)>,
    lines: Seq<Seq<char>>,
) -> (EvaluationPhase, Seq<(u32, Seq<char>)>)
    decreases lines.len(),
{
    if lines.len() == 0 {
        (phase, scores)
    } else {
        let next = evaluation_next(phase, scores, lines[0]);
        evaluation_run(next.0, next.1, lines.drop_first())
    }
}

/// With `left` score lines to come, each well-formed one adds its score at
/// the end and counts down by one; the answer ends exactly with the last.
pub proof fn lemma_scores_counted_down(
    left: u32,
    scores: Seq<(u32, Seq<char>)>,
    line: Seq<char>,
    action: EvaluationAction,
)
    requires
        left >= 1,
        score_line_spec(line) is Ok,
    ensures
        ({
            let next = evaluation_next(EvaluationPhase::ReadingScores { left }, scores, line);
            &&& next.1.len() == scores.len() + 1
            &&& next.1.take(scores.len() as int) == scores
            &&& next.1.last() == score_line_spec(line)->Ok_0
            &&& left == 1 ==> next.0 == EvaluationPhase::Finished
            &&& left > 1 ==> (next.0 matches EvaluationPhase::ReadingScores { left: l } && l + 1
                == left)
        }),
        evaluation_action_ok(EvaluationPhase::ReadingScores { left }, line, action) ==> (if left
            == 1 {
            action is Done
        } else {
            action is ReadLine
        }),
{
    let next = evaluation_next(EvaluationPhase::ReadingScores { left }, scores, line);
    assert(next.1.take(scores.len() as int) =~= scores);
}

/// After `m` of `k` announced score lines (all well formed), `k - m` remain
/// and the `m` scores are collected in order; after all `k`, the answer is
/// over with exactly `k` scores.
pub proof fn lemma_answer_reads_all_scores(
    k: u32,
    scores: Seq<(u32, Seq<char>)>,
    lines: Seq<Seq<char>>,
)
    requires
        1 <= k,
        lines.len() <= k,
        forall|i: int| 0 <= i < lines.len() ==> score_line_spec(#[trigger] lines[i]) is Ok,
    ensures
        ({
            let r = evaluation_run(EvaluationPhase::ReadingScores { left: k }, scores, lines);
            &&& r.1.len() == scores.len() + lines.len()
            &&& r.1.take(scores.len() as int) == scores
            &&& forall|i: int|
                0 <= i < lines.len() ==> r.1[scores.len() + i] == score_line_spec(
                    #[trigger] lines[i],
                )->Ok_0
            &&& lines.len() < k ==> (r.0 matches EvaluationPhase::ReadingScores { left } && left
                + lines.len() == k)
            &&& lines.len() == k ==> r.0 == EvaluationPhase::Finished
        }),
    decreases lines.len(),
{
    if lines.len() > 0 {
        let next = evaluation_next(EvaluationPhase::ReadingScores { left: k }, scores, lines[0]);
        let rest = lines.drop_first();
        assert forall|i: int| 0 <= i < rest.len() implies score_line_spec(#[trigger] rest[i])
            is Ok by {
            assert(rest[i] == lines[i + 1]);
        }
        let r = evaluation_run(EvaluationPhase::ReadingScores { left: k }, scores, lines);
        if k > 1 {
            lemma_answer_reads_all_scores((k - 1) as u32, next.1, rest);
            assert(r.1.take(next.1.len() as int) == next.1);
            assert(r.1.take(scores.len() as int) =~= next.1.take(scores.len() as int));
            assert forall|i: int| 0 <= i < lines.len() implies r.1[scores.len() + i]
                == score_line_spec(#[trigger] lines[i])->Ok_0 by {
                if i > 0 {
                    assert(lines[i] == rest[i - 1]);
                    assert(r.1[next.1.len() + (i - 1)] == score_line_spec(rest[i - 1])->Ok_0);
                } else {
                    assert(r.1[scores.len() as int] == r.1.take(next.1.len() as int)[scores.len() as int]);
                }
            }
        } else {
            assert(rest.len() == 0);
            assert(evaluation_run(next.0, next.1, rest) == (next.0, next.1));
            assert(r == next);
            assert(r.1.take(scores.len() as int) =~= scores);
        }
    } else {
        assert(scores.take(scores.len() as int) =~= scores);
    }
}

// ---------------------------------------------------------------------
// Reading back lines written in the protocol's format
// ---------------------------------------------------------------------

proof fn lemma_decimal_plain(n: nat)
    ensures
        decimal(n).len() >= 1,
        space_free(decimal(n)),
        !is_white_space(decimal(n)[0]),
        !is_white_space(decimal(n).last()),
{
    lemma_decimal_digits(n);
    let d = decimal(n);
    assert(is_ascii_digit(d[0]));
    assert(is_ascii_digit(d[d.len() - 1]));
    assert forall|i: int| 0 <= i < d.len() implies #[trigger] d[i] != ' ' by {
        assert(is_ascii_digit(d[i]));
    }
}

/// A tag definition written as its number, a space, its name (without
/// spaces), a space, its class number and a line break is read back as that
/// number, that name and the class of that class number.
pub proof fn lemma_definition_line_read_back(num: u32, name: Seq<char>, class: u32)
    requires
        space_free(name),
    ensures
        tag_definition_spec(
            (decimal(num as nat) + seq![' '] + name + seq![' '] + decimal(class as nat)).push('\n'),
        ) == Some((num, name, tag_class_of(class))),
{
    let a = decimal(num as nat);
    let c = decimal(class as nat);
    let body = a + seq![' '] + name + seq![' '] + c;
    lemma_decimal_plain(num as nat);
    lemma_decimal_plain(class as nat);
    assert(body[0] == a[0]);
    assert(body.last() == c.last());
    lemma_trim_line(body);
    lemma_split_join(a + seq![' '] + name, c);
    lemma_split_join(a, name);
    lemma_split_space_free(a);
    lemma_split_space_free(name);
    lemma_split_space_free(c);
    let p = split_spaces(trim(body.push('\n')));
    assert(p =~= seq![a, name, c]);
    lemma_parse_u32_reads_decimal(num);
    lemma_parse_u32_reads_decimal(class);
}

/// A score written as its tag number, a space, its confidence text (without
/// spaces, ending in something other than whitespace) and a line break is
/// read back as that number and that text.
pub proof fn lemma_score_line_read_back(num: u32, confidence: Seq<char>)
    requires
        confidence.len() >= 1,
        space_free(confidence),
        !is_white_space(confidence.last()),
    ensures
        score_line_spec((decimal(num as nat) + seq![' '] + confidence).push('\n')) == Ok::<
            (u32, Seq<char>),
            Seq<char>,
        >((num, confidence)),
{
    let a = decimal(num as nat);
    let body = a + seq![' '] + confidence;
    lemma_decimal_plain(num as nat);
    assert(body[0] == a[0]);
    assert(body.last() == confidence.last());
    lemma_trim_line(body);
    lemma_split_join(a, confidence);
    lemma_split_space_free(a);
    lemma_split_space_free(confidence);
    assert(split_spaces(trim(body.push('\n'))) =~= seq![a, confidence]);
    lemma_parse_u32_reads_decimal(num);
}

/// A count line written as a number `n >= 0` and a line break announces
/// exactly `n` tag definitions, and exactly `n` scores.
pub proof fn lemma_count_line_read_back(n: i32)
    requires
        n >= 0,
    ensures
        parse_i32_spec(trim(decimal(n as nat).push('\n'))) == Ok::<i32, IntParseError>(n),
        tag_listing_length_spec(decimal(n as nat).push('\n')) matches Some(k) && k as int
            == n as int,
{
    lemma_decimal_plain(n as nat);
    lemma_trim_line(decimal(n as nat));
    lemma_parse_i32_reads_decimal(n);
}

} // verus!
