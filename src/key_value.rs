//! Key-value ("tag: value") lines, records of them, and a line-by-line
//! parser whose policy decides how values may span several lines.

use vstd::prelude::*;
use crate::text::{chars_of, join_texts, join_with, slice_of, string_of, trim, trim_end, trimmed, trimmed_end, views_of_texts};

verus! {

/// A key-value pair.
#[derive(Debug, Clone, PartialEq)]
pub struct KeyValuePair {
    pub key: String,
    pub value: String,
}

/// The result of parsing a single line as "key: value".
#[derive(Debug)]
pub enum ParsedLine {
    /// A blank line, which ends a record.
    RecordDelimeter,
    /// A line without the delimiter ": ".
    ValueOnly(String),
    /// The key before the first ": ", the value after it.
    KVPair(KeyValuePair),
}

/// The index of the first occurrence of `p` in `s`, if any.
pub open spec fn find(s: Seq<char>, p: Seq<char>) -> Option<int>
    decreases s.len(),
{
    if s.len() < p.len() {
        None
    } else if s.take(p.len() as int) == p {
        Some(0)
    } else if s.len() == 0 {
        None
    } else {
        match find(s.drop_first(), p) {
            Some(k) => Some(k + 1),
            None => None,
        }
    }
}

pub open spec fn delimiter() -> Seq<char> {
    seq![':', ' ']
}

/// What a line is: blank, a key and a value around the first ": ", or a
/// value alone.
pub open spec fn line_kind(line: Seq<char>) -> (int, Seq<char>, Seq<char>) {
    if trimmed(line).len() == 0 {
        (0, seq![], seq![])
    } else {
        match find(line, delimiter()) {
            Some(k) => (2, line.take(k), line.skip(k + 2)),
            None => (1, line, seq![]),
        }
    }
}

/// Where `p` first occurs in `s`, if it does.
fn find_from(s: &Vec<char>, p: &Vec<char>) -> (r: Option<usize>)
    requires
        p@.len() > 0,
    ensures
        match r {
            Some(k) => find(s@, p@) == Some(k as int) && k + p@.len() <= s@.len(),
            None => find(s@, p@) is None,
        },
{
    let n = s.len();
    let mut i: usize = 0;
    assert(s@.skip(0) =~= s@);
    while i < n
        invariant
            p@.len() > 0,
            n == s@.len(),
            i <= n,
            find(s@, p@) == match find(s@.skip(i as int), p@) {
                Some(k) => Some(k + i),
                None => None,
            },
        decreases n - i,
    {
        let ghost t = s@.skip(i as int);
        if crate::cleanup::matches_at(s, i, p) {
            assert(t.take(p@.len() as int) =~= s@.subrange(i as int, i + p@.len()));
            return Some(i);
        }
        proof {
            if p@.len() <= t.len() {
                assert(t.take(p@.len() as int) =~= s@.subrange(i as int, i + p@.len()));
            }
            assert(t.drop_first() =~= s@.skip(i + 1));
        }
        i += 1;
    }
    None
}

impl ParsedLine {
    /// Parse one line.
    pub fn from_line(line: &str) -> (r: ParsedLine)
        ensures
            match r {
                ParsedLine::RecordDelimeter => line_kind(line@).0 == 0,
                ParsedLine::ValueOnly(v) => line_kind(line@).0 == 1 && v@ == line@,
                ParsedLine::KVPair(p) => line_kind(line@) == (2int, p.key@, p.value@),
            },
    {
        let t = chars_of(trim(line));
        if t.len() == 0 {
            return ParsedLine::RecordDelimeter;
        }
        let s = chars_of(line);
        let n = s.len();
        let delim: Vec<char> = vec![':', ' '];
        assert(delim@ =~= delimiter());
        match find_from(&s, &delim) {
            Some(k) => {
                let key = string_of(slice_of(&s, 0, k).as_slice());
                let value = string_of(slice_of(&s, k + 2, n).as_slice());
                assert(s@.subrange(0, k as int) =~= s@.take(k as int));
                assert(s@.subrange(k + 2, s@.len() as int) =~= s@.skip(k + 2));
                ParsedLine::KVPair(KeyValuePair { key, value })
            },
            None => ParsedLine::ValueOnly(line.to_owned()),
        }
    }

    /// Is this the key-value variant?
    pub fn is_kv_pair(&self) -> (r: bool)
        ensures
            r == (self is KVPair),
    {
        match self {
            ParsedLine::KVPair(_) => true,
            ParsedLine::RecordDelimeter => false,
            ParsedLine::ValueOnly(_) => false,
        }
    }

    /// The pair of the key-value variant; nothing for the others.
    pub fn pair(self) -> (r: Option<KeyValuePair>)
        ensures
            match self {
                ParsedLine::KVPair(p) => r == Some(p),
                _ => r is None,
            },
    {
        match self {
            ParsedLine::KVPair(pair) => Some(pair),
            ParsedLine::RecordDelimeter => None,
            ParsedLine::ValueOnly(_) => None,
        }
    }
}

/// An error from operations on a record.
#[derive(Debug)]
pub enum RecordError {
    /// This many fields named so, where at most one was expected.
    WantedAtMostOneFoundMore(String, usize),
    /// This many fields named so, where exactly one was expected.
    WantedOneFoundMore(String, usize),
    /// No field of this name, where one was required.
    MissingField(String),
    /// A line without a key, outside of a multi-line value.
    UnexpectedValueLine(String),
}

/// An ordered collection of key-value pairs.
#[derive(Debug)]
pub struct Record(Vec<KeyValuePair>);

/// The values of the pairs whose key is `key`, in order.
pub open spec fn values_with_key(ps: Seq<KeyValuePair>, key: Seq<char>) -> Seq<Seq<char>>
    decreases ps.len(),
{
    if ps.len() == 0 {
        seq![]
    } else if ps.last().key@ == key {
        values_with_key(ps.drop_last(), key).push(ps.last().value@)
    } else {
        values_with_key(ps.drop_last(), key)
    }
}

impl Default for Record {
    fn default() -> (r: Record)
        ensures
            r.pairs().len() == 0,
    {
        Record(Vec::new())
    }
}

impl Record {
    pub closed spec fn pairs(&self) -> Seq<KeyValuePair> {
        self.0@
    }

    pub fn push_field(&mut self, pair: KeyValuePair)
        ensures
            final(self).pairs() == old(self).pairs().push(pair),
    {
        self.0.push(pair)
    }

    /// The values (in order) of the fields whose key is `key`.
    pub fn values_for_key(&self, key: &str) -> (r: Vec<String>)
        ensures
            r@.map_values(|v: String| v@) == values_with_key(self.pairs(), key@),
    {
        let mut out: Vec<String> = Vec::new();
        let mut i: usize = 0;
        let ghost ps = self.0@;
        assert(ps.take(0) =~= Seq::<KeyValuePair>::empty());
        while i < self.0.len()
            invariant
                i <= ps.len(),
                ps == self.0@,
                out@.map_values(|v: String| v@) == values_with_key(ps.take(i as int), key@),
            decreases ps.len() - i,
        {
            proof {
                assert(ps.take(i + 1).drop_last() =~= ps.take(i as int));
                assert(ps.take(i + 1).last() == ps[i as int]);
            }
            if crate::text::same_text(self.0[i].key.as_str(), key) {
                let v = self.0[i].value.clone();
                let ghost before = out@;
                out.push(v);
                assert(out@.map_values(|v: String| v@) =~= before.map_values(|v: String| v@).push(v@));
            }
            i += 1;
        }
        assert(ps.take(ps.len() as int) =~= ps);
        out
    }

    /// The number of fields whose key is `key`.
    pub fn count_fields_with_key(&self, key: &str) -> (r: usize)
        ensures
            r == values_with_key(self.pairs(), key@).len(),
    {
        self.values_for_key(key).len()
    }

    /// The value of the field named `key`, if there is one; an error where
    /// there are more.
    pub fn value_for_key(&self, key: &str) -> (r: Result<Option<String>, RecordError>)
        ensures
            ({
                let vs = values_with_key(self.pairs(), key@);
                match r {
                    Ok(None) => vs.len() == 0,
                    Ok(Some(v)) => vs.len() == 1 && v@ == vs[0],
                    Err(RecordError::WantedAtMostOneFoundMore(k, n)) => vs.len() > 1 && n == vs.len()
                        && k@ == key@,
                    Err(_) => false,
                }
            }),
    {
        let mut values = self.values_for_key(key);
        let n = values.len();
        if n == 0 {
            Ok(None)
        } else if n == 1 {
            let v = values.pop().unwrap();
            assert(values@.push(v).map_values(|v: String| v@)[0] == v@);
            Ok(Some(v))
        } else {
            Err(RecordError::WantedAtMostOneFoundMore(key.to_owned(), n))
        }
    }

    /// The value of the field named `key`; an error where there is none or
    /// more than one.
    pub fn value_for_required_key(&self, key: &str) -> (r: Result<String, RecordError>)
        ensures
            ({
                let vs = values_with_key(self.pairs(), key@);
                match r {
                    Ok(v) => vs.len() == 1 && v@ == vs[0],
                    Err(RecordError::MissingField(k)) => vs.len() == 0 && k@ == key@,
                    Err(RecordError::WantedOneFoundMore(k, n)) => vs.len() > 1 && n == vs.len() && k@
                        == key@,
                    Err(_) => false,
                }
            }),
    {
        let mut values = self.values_for_key(key);
        let n = values.len();
        if n == 0 {
            Err(RecordError::MissingField(key.to_owned()))
        } else if n == 1 {
            let v = values.pop().unwrap();
            assert(values@.push(v).map_values(|v: String| v@)[0] == v@);
            Ok(v)
        } else {
            Err(RecordError::WantedOneFoundMore(key.to_owned(), n))
        }
    }
}

/// What a policy makes of the value on the line of its key.
#[derive(Debug)]
pub enum ProcessedValue {
    /// The value is complete on this line (decoration stripped).
    CompleteValue(String),
    /// The value goes on over the following lines; its first line, if any.
    StartOfMultiline(Option<String>),
}

/// What a policy makes of a line within a multi-line value.
#[derive(Debug)]
pub enum ProcessedContinuationValue {
    /// The value goes on; this line of it, if any.
    ContinueMultiline(Option<String>),
    /// The value ends here; this last line of it, if any.
    FinishMultiline(Option<String>),
}

pub enum ValueStep {
    Complete(Seq<char>),
    Start(Option<Seq<char>>),
}

pub enum ContinuationStep {
    Continue(Option<Seq<char>>),
    Finish(Option<Seq<char>>),
}

pub open spec fn opt_view(o: Option<String>) -> Option<Seq<char>> {
    match o {
        Some(s) => Some(s@),
        None => None,
    }
}

impl View for ProcessedValue {
    type V = ValueStep;

    open spec fn view(&self) -> ValueStep {
        match self {
            ProcessedValue::CompleteValue(v) => ValueStep::Complete(v@),
            ProcessedValue::StartOfMultiline(v) => ValueStep::Start(opt_view(*v)),
        }
    }
}

impl View for ProcessedContinuationValue {
    type V = ContinuationStep;

    open spec fn view(&self) -> ContinuationStep {
        match self {
            ProcessedContinuationValue::ContinueMultiline(v) => ContinuationStep::Continue(opt_view(*v)),
            ProcessedContinuationValue::FinishMultiline(v) => ContinuationStep::Finish(opt_view(*v)),
        }
    }
}

/// How values are read: where a value may span several lines, and what
/// decoration is stripped.
pub trait TagValueParsePolicy {
    spec fn value_step(&self, key: Seq<char>, value: Seq<char>) -> ValueStep;

    spec fn continuation_step(&self, key: Seq<char>, line: Seq<char>) -> ContinuationStep;

    fn process_value(&self, key: &str, value: &str) -> (r: ProcessedValue)
        ensures
            r@ == self.value_step(key@, value@),
    ;

    fn process_continuation(&self, key: &str, continuation_line: &str) -> (r: ProcessedContinuationValue)
        ensures
            r@ == self.continuation_step(key@, continuation_line@),
    ;
}

/// Every value is complete on its line, as it stands.
#[derive(Debug, Default, Clone, Copy)]
pub struct TrivialParsePolicy {}

impl TagValueParsePolicy for TrivialParsePolicy {
    open spec fn value_step(&self, key: Seq<char>, value: Seq<char>) -> ValueStep {
        ValueStep::Complete(value)
    }

    /// Never asked, since no value starts a multi-line run: the line ends it.
    open spec fn continuation_step(&self, key: Seq<char>, line: Seq<char>) -> ContinuationStep {
        ContinuationStep::Finish(Some(line))
    }

    fn process_value(&self, _key: &str, value: &str) -> (r: ProcessedValue) {
        ProcessedValue::CompleteValue(value.to_owned())
    }

    fn process_continuation(&self, _key: &str, continuation_line: &str) -> (r: ProcessedContinuationValue) {
        ProcessedContinuationValue::FinishMultiline(Some(continuation_line.to_owned()))
    }
}

/// SPDX tag-value files: a value that starts with "<text>" goes on, possibly
/// over several lines, up to "</text>"; both tags are stripped.
#[derive(Debug, Default, Clone, Copy)]
pub struct SPDXParsePolicy {}

pub open spec fn open_tag() -> Seq<char> {
    "<text>"@
}

pub open spec fn close_tag() -> Seq<char> {
    "</text>"@
}

pub open spec fn starts_with(s: Seq<char>, p: Seq<char>) -> bool {
    p.len() <= s.len() && s.take(p.len() as int) == p
}

pub open spec fn ends_with(s: Seq<char>, p: Seq<char>) -> bool {
    p.len() <= s.len() && s.skip(s.len() - p.len()) == p
}

impl TagValueParsePolicy for SPDXParsePolicy {
    open spec fn value_step(&self, key: Seq<char>, value: Seq<char>) -> ValueStep {
        let t = trimmed(value);
        if starts_with(t, open_tag()) {
            let rest = t.skip(open_tag().len() as int);
            if ends_with(rest, close_tag()) {
                ValueStep::Complete(rest.take(rest.len() - close_tag().len()))
            } else {
                ValueStep::Start(Some(rest))
            }
        } else {
            ValueStep::Complete(value)
        }
    }

    open spec fn continuation_step(&self, key: Seq<char>, line: Seq<char>) -> ContinuationStep {
        let l = trimmed_end(line);
        if ends_with(l, close_tag()) {
            ContinuationStep::Finish(Some(l.take(l.len() - close_tag().len())))
        } else {
            ContinuationStep::Continue(Some(l))
        }
    }

    fn process_value(&self, _key: &str, value: &str) -> (r: ProcessedValue) {
        let t = chars_of(trim(value));
        let open = chars_of("<text>");
        let close = chars_of("</text>");
        if crate::cleanup::matches_at(&t, 0, &open) {
            assert(t@.subrange(0, open@.len() as int) =~= t@.take(open@.len() as int));
            let rest = slice_of(&t, open.len(), t.len());
            assert(rest@ =~= t@.skip(open@.len() as int));
            if close.len() <= rest.len() && crate::cleanup::matches_at(&rest, rest.len() - close.len(), &close) {
                assert(rest@.subrange(rest@.len() - close@.len(), rest@.len() as int) =~= rest@.skip(
                    rest@.len() - close@.len(),
                ));
                let inner = slice_of(&rest, 0, rest.len() - close.len());
                assert(inner@ =~= rest@.take(rest@.len() - close@.len()));
                ProcessedValue::CompleteValue(string_of(inner.as_slice()))
            } else {
                proof {
                    if close@.len() <= rest@.len() {
                        assert(rest@.subrange(rest@.len() - close@.len(), rest@.len() as int) =~= rest@.skip(
                            rest@.len() - close@.len(),
                        ));
                    }
                }
                ProcessedValue::StartOfMultiline(Some(string_of(rest.as_slice())))
            }
        } else {
            proof {
                if open@.len() <= t@.len() {
                    assert(t@.subrange(0, open@.len() as int) =~= t@.take(open@.len() as int));
                }
            }
            ProcessedValue::CompleteValue(value.to_owned())
        }
    }

    fn process_continuation(&self, _key: &str, continuation_line: &str) -> (r: ProcessedContinuationValue) {
        let l = chars_of(trim_end(continuation_line));
        let close = chars_of("</text>");
        if close.len() <= l.len() && crate::cleanup::matches_at(&l, l.len() - close.len(), &close) {
            assert(l@.subrange(l@.len() - close@.len(), l@.len() as int) =~= l@.skip(l@.len() - close@.len()));
            let inner = slice_of(&l, 0, l.len() - close.len());
            assert(inner@ =~= l@.take(l@.len() - close@.len()));
            ProcessedContinuationValue::FinishMultiline(Some(string_of(inner.as_slice())))
        } else {
            proof {
                if close@.len() <= l@.len() {
                    assert(l@.subrange(l@.len() - close@.len(), l@.len() as int) =~= l@.skip(
                        l@.len() - close@.len(),
                    ));
                }
            }
            ProcessedContinuationValue::ContinueMultiline(Some(string_of(l.as_slice())))
        }
    }
}

/// A pair, if any, and the number of the line just read.
#[derive(Debug)]
pub struct KVParserLineOutput {
    pub pair: Option<KeyValuePair>,
    pub line_number: usize,
}

impl KVParserLineOutput {
    pub fn into_inner(self) -> (r: Option<KeyValuePair>)
        ensures
            r == self.pair,
    {
        self.pair
    }
}

/// A parser of key-value lines under the policy `P`.
#[derive(Debug)]
pub struct KVParser<P> {
    policy: P,
    awaiting_close: bool,
    line_num: usize,
    pending_key: String,
    value_lines: Vec<String>,
}

/// The state of a parser: inside a multi-line value or not, lines read,
/// and the key and lines of the value being read.
pub struct KVState {
    pub awaiting_close: bool,
    pub line_num: int,
    pub pending_key: Seq<char>,
    pub value_lines: Seq<Seq<char>>,
}

pub open spec fn with_line(ls: Seq<Seq<char>>, l: Option<Seq<char>>) -> Seq<Seq<char>> {
    match l {
        Some(x) => ls.push(x),
        None => ls,
    }
}

/// One line read by a parser in state `st` under `policy`: the pair that
/// it completes, if any (an error for a line without a key outside a
/// multi-line value), and the next state.
pub open spec fn kv_step<P: TagValueParsePolicy>(policy: P, st: KVState, line: Seq<char>) -> (
    Result<Option<(Seq<char>, Seq<char>)>, ()>,
    KVState,
) {
    let n = st.line_num + 1;
    if !st.awaiting_close {
        let kind = line_kind(line);
        if kind.0 == 0 {
            (Ok(None), KVState { line_num: n, ..st })
        } else if kind.0 == 1 {
            (Err(()), KVState { line_num: n, ..st })
        } else {
            match policy.value_step(kind.1, kind.2) {
                ValueStep::Complete(v) => (Ok(Some((kind.1, v))), KVState { line_num: n, ..st }),
                ValueStep::Start(v) => (
                    Ok(None),
                    KVState {
                        awaiting_close: true,
                        line_num: n,
                        pending_key: kind.1,
                        value_lines: with_line(seq![], v),
                    },
                ),
            }
        }
    } else {
        match policy.continuation_step(st.pending_key, line) {
            ContinuationStep::Continue(v) => (
                Ok(None),
                KVState { line_num: n, value_lines: with_line(st.value_lines, v), ..st },
            ),
            ContinuationStep::Finish(v) => (
                Ok(Some((st.pending_key, join_with(with_line(st.value_lines, v), seq!['\n'])))),
                KVState { awaiting_close: false, line_num: n, pending_key: seq![], value_lines: seq![] },
            ),
        }
    }
}

impl<P: TagValueParsePolicy> KVParser<P> {
    pub closed spec fn state(&self) -> KVState {
        KVState {
            awaiting_close: self.awaiting_close,
            line_num: self.line_num as int,
            pending_key: self.pending_key@,
            value_lines: self.value_lines@.map_values(|l: String| l@),
        }
    }

    pub closed spec fn policy(&self) -> P {
        self.policy
    }

    pub fn new(policy: P) -> (r: KVParser<P>)
        ensures
            r.policy() == policy,
            !r.state().awaiting_close,
            r.state().line_num == 0,
            r.state().pending_key.len() == 0,
            r.state().value_lines.len() == 0,
    {
        let r = KVParser {
            policy,
            awaiting_close: false,
            line_num: 0,
            pending_key: String::new(),
            value_lines: Vec::new(),
        };
        assert(r.value_lines@.map_values(|l: String| l@) =~= Seq::<Seq<char>>::empty());
        r
    }

    fn maybe_push_value_line(&mut self, maybe_value: Option<String>)
        ensures
            final(self).value_lines@.map_values(|l: String| l@) == with_line(
                old(self).value_lines@.map_values(|l: String| l@),
                opt_view(maybe_value),
            ),
            final(self).policy == old(self).policy,
            final(self).awaiting_close == old(self).awaiting_close,
            final(self).line_num == old(self).line_num,
            final(self).pending_key == old(self).pending_key,
    {
        if let Some(value) = maybe_value {
            let ghost before = self.value_lines@;
            self.value_lines.push(value);
            assert(self.value_lines@.map_values(|l: String| l@) =~= before.map_values(|l: String| l@).push(value@));
        }
    }

    /// Read one line.
    pub fn process_line(&mut self, line: &str) -> (r: Result<KVParserLineOutput, RecordError>)
        requires
            old(self).state().line_num < usize::MAX,
        ensures
            final(self).policy() == old(self).policy(),
            final(self).state() == kv_step(old(self).policy(), old(self).state(), line@).1,
            match r {
                Ok(out) => out.line_number == final(self).state().line_num && kv_step(
                    old(self).policy(),
                    old(self).state(),
                    line@,
                ).0 == Ok::<Option<(Seq<char>, Seq<char>)>, ()>(match out.pair {
                    Some(p) => Some((p.key@, p.value@)),
                    None => None,
                }),
                Err(RecordError::UnexpectedValueLine(l)) => l@ == line@ && kv_step(
                    old(self).policy(),
                    old(self).state(),
                    line@,
                ).0 is Err,
                Err(_) => false,
            },
    {
        self.line_num = self.line_num + 1;
        if !self.awaiting_close {
            match ParsedLine::from_line(line) {
                ParsedLine::RecordDelimeter => Ok(KVParserLineOutput { pair: None, line_number: self.line_num }),
                ParsedLine::ValueOnly(v) => Err(RecordError::UnexpectedValueLine(v)),
                ParsedLine::KVPair(pair) => {
                    match self.policy.process_value(pair.key.as_str(), pair.value.as_str()) {
                        ProcessedValue::CompleteValue(value) => Ok(
                            KVParserLineOutput {
                                pair: Some(KeyValuePair { key: pair.key, value }),
                                line_number: self.line_num,
                            },
                        ),
                        ProcessedValue::StartOfMultiline(maybe_value) => {
                            self.pending_key = pair.key;
                            self.value_lines = Vec::new();
                            assert(self.value_lines@.map_values(|l: String| l@) =~= Seq::<Seq<char>>::empty());
                            self.maybe_push_value_line(maybe_value);
                            self.awaiting_close = true;
                            Ok(KVParserLineOutput { pair: None, line_number: self.line_num })
                        },
                    }
                },
            }
        } else {
            match self.policy.process_continuation(self.pending_key.as_str(), line) {
                ProcessedContinuationValue::ContinueMultiline(maybe_value) => {
                    self.maybe_push_value_line(maybe_value);
                    Ok(KVParserLineOutput { pair: None, line_number: self.line_num })
                },
                ProcessedContinuationValue::FinishMultiline(maybe_value) => {
                    self.maybe_push_value_line(maybe_value);
                    let mut texts: Vec<Vec<char>> = Vec::new();
                    let mut i: usize = 0;
                    let ghost ls = self.value_lines@.map_values(|l: String| l@);
                    while i < self.value_lines.len()
                        invariant
                            i <= self.value_lines@.len(),
                            ls == self.value_lines@.map_values(|l: String| l@),
                            views_of_texts(texts@) == ls.take(i as int),
                        decreases self.value_lines@.len() - i,
                    {
                        let t = chars_of(self.value_lines[i].as_str());
                        let ghost before = texts@;
                        texts.push(t);
                        proof {
                            assert(views_of_texts(texts@) =~= views_of_texts(before).push(t@));
                            assert(ls.take(i + 1) =~= ls.take(i as int).push(ls[i as int]));
                        }
                        i += 1;
                    }
                    assert(ls.take(self.value_lines@.len() as int) =~= ls);
                    let sep: Vec<char> = vec!['\n'];
                    assert(sep@ =~= seq!['\n']);
                    let value = string_of(join_texts(&texts, &sep).as_slice());
                    self.value_lines = Vec::new();
                    assert(self.value_lines@.map_values(|l: String| l@) =~= Seq::<Seq<char>>::empty());
                    let key = self.pending_key.clone();
                    self.pending_key = String::new();
                    self.awaiting_close = false;
                    Ok(KVParserLineOutput { pair: Some(KeyValuePair { key, value }), line_number: self.line_num })
                },
            }
        }
    }
}

impl<P: TagValueParsePolicy + Default> Default for KVParser<P> {
    fn default() -> (r: KVParser<P>) {
        KVParser::new(P::default())
    }
}

} // verus!
