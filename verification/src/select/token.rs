//! The steps of a selection path and the tokenizer that reads them from text.

use vstd::prelude::*;
use vstd::string::*;

verus! {

/// The mathematical model of one step of a selection path.
pub enum Step {
    /// `*`: the value must be an array or an object. The walk stays where it
    /// is; it does not spread over the children.
    Any,
    /// `[]`: the value must be an array. The walk stays where it is.
    Array,
    /// `{}`: the value must be an object. The walk stays where it is.
    Object,
    /// A field of an object, by name: the walk moves into its value.
    /// `with_name` records a leading `=`. The mark is part of the canonical
    /// text of the step, and so of the name under which a merged value is
    /// stored; it plays no part in the walk.
    Field { name: Seq<char>, with_name: bool },
}

/// Why a piece of text is not a selection path.
pub enum ParseFailure {
    /// A segment, or the name in it, is empty.
    EmptySegment,
    /// The segment has a double quote at one end only, or is a lone quote.
    UnbalancedQuote { segment: Seq<char> },
}

/// The segment that stands for any container: `*`.
pub open spec fn any_text() -> Seq<char> {
    seq!['*']
}

/// The segment that asserts an array: `[]`.
pub open spec fn array_text() -> Seq<char> {
    seq!['[', ']']
}

/// The segment that asserts an object: `{}`.
pub open spec fn object_text() -> Seq<char> {
    seq!['{', '}']
}

/// The mark of a field that is named in the output: `=` or nothing.
pub open spec fn name_mark(with_name: bool) -> Seq<char> {
    if with_name {
        seq!['=']
    } else {
        Seq::empty()
    }
}

/// `name` between double quotes.
pub open spec fn in_quotes(name: Seq<char>) -> Seq<char> {
    seq!['"'] + name + seq!['"']
}

impl Step {
    /// A field's name is never empty.
    pub open spec fn wf(self) -> bool {
        self matches Step::Field { name, .. } ==> name.len() > 0
    }

    /// The step as written without quotes: the mark and the bare name.
    pub open spec fn label(self) -> Seq<char> {
        match self {
            Step::Any => any_text(),
            Step::Array => array_text(),
            Step::Object => object_text(),
            Step::Field { name, with_name } => name_mark(with_name) + name,
        }
    }

    /// The canonical text of the step: as `label`, but a name that holds a
    /// `.` stands between double quotes.
    pub open spec fn text(self) -> Seq<char> {
        match self {
            Step::Any => any_text(),
            Step::Array => array_text(),
            Step::Object => object_text(),
            Step::Field { name, with_name } => name_mark(with_name) + (if name.contains('.') {
                in_quotes(name)
            } else {
                name
            }),
        }
    }
}

impl ParseFailure {
    /// The message that reports the failure of a single segment.
    pub open spec fn text(self) -> Seq<char> {
        match self {
            ParseFailure::EmptySegment => "Cannot convert empty string"@,
            ParseFailure::UnbalancedQuote { segment } => "Token "@ + segment
                + " contains unbalanced '\"' )"@,
        }
    }

    /// The message that reports the failure for the whole expression `input`.
    pub open spec fn text_for(self, input: Seq<char>) -> Seq<char> {
        "Error parsing '"@ + input + "' - "@ + self.text()
    }
}

/// What one segment of a selection path stands for.
///
/// The three fixed segments are tried first. Any other segment is a field:
/// a leading `=` is its mark; what remains is the name, which may stand in
/// double quotes. A quote at one end only, or a lone quote, is unbalanced;
/// an empty segment or an empty name is refused.
pub open spec fn classify(segment: Seq<char>) -> Result<Step, ParseFailure> {
    if segment == object_text() {
        Ok(Step::Object)
    } else if segment == array_text() {
        Ok(Step::Array)
    } else if segment == any_text() {
        Ok(Step::Any)
    } else if segment.len() == 0 {
        Err(ParseFailure::EmptySegment)
    } else {
        let with_name = segment[0] == '=';
        let rest = if with_name {
            segment.skip(1)
        } else {
            segment
        };
        if rest.len() == 0 {
            Err(ParseFailure::EmptySegment)
        } else if rest.first() == '"' || rest.last() == '"' {
            if rest.len() >= 2 && rest.first() == '"' && rest.last() == '"' {
                if rest.len() == 2 {
                    Err(ParseFailure::EmptySegment)
                } else {
                    Ok(Step::Field { name: rest.subrange(1, rest.len() - 1), with_name })
                }
            } else {
                Err(ParseFailure::UnbalancedQuote { segment })
            }
        } else {
            Ok(Step::Field { name: rest, with_name })
        }
    }
}

/// Whether a segment may end at `at`: at a `.` or at the end of the input.
pub open spec fn is_boundary(s: Seq<char>, at: int) -> bool {
    at == s.len() || (0 <= at < s.len() && s[at] == '.')
}

/// Whether the segment that starts at `start` opens a quoted span: it begins
/// with `"` or with `="`.
pub open spec fn opens_quote(s: Seq<char>, start: int) -> bool {
    ||| 0 <= start < s.len() && s[start] == '"'
    ||| 0 <= start && start + 1 < s.len() && s[start] == '=' && s[start + 1] == '"'
}

/// Whether the segment that starts at `start` may end at `end`: `end` is a
/// boundary and, where the segment opens a quoted span, the character before
/// `end` is a `"`.
pub open spec fn closes_at(s: Seq<char>, start: int, end: int) -> bool {
    is_boundary(s, end) && (opens_quote(s, start) ==> start < end && s[end - 1] == '"')
}

/// The first position from `at` on where the segment that starts at `start`
/// may end, if there is one.
pub open spec fn segment_end_from(s: Seq<char>, start: int, at: int) -> Option<int>
    decreases s.len() - at,
{
    if closes_at(s, start, at) {
        Some(at)
    } else if at >= s.len() {
        None
    } else {
        segment_end_from(s, start, at + 1)
    }
}

/// Where the segment that starts at `start` ends. A segment that opens a
/// quoted span and never closes it has no end.
pub open spec fn segment_end(s: Seq<char>, start: int) -> Option<int> {
    segment_end_from(s, start, start)
}

/// `segment_end_from` gives the least position from `at` on where the segment
/// may end, and `None` only where there is no such position.
pub proof fn lemma_segment_end_from(s: Seq<char>, start: int, at: int)
    requires
        0 <= start <= at <= s.len(),
    ensures
        match segment_end_from(s, start, at) {
            Some(end) => {
                &&& at <= end <= s.len()
                &&& closes_at(s, start, end)
                &&& forall|p: int| at <= p < end ==> !closes_at(s, start, p)
            },
            None => forall|p: int| at <= p <= s.len() ==> !closes_at(s, start, p),
        },
    decreases s.len() - at,
{
    if !closes_at(s, start, at) {
        if at < s.len() {
            lemma_segment_end_from(s, start, at + 1);
        }
    }
}

/// The steps that the input spells from `start` on, or the first failure.
pub open spec fn parse_from(s: Seq<char>, start: int) -> Result<Seq<Step>, ParseFailure>
    decreases s.len() - start,
{
    if !(0 <= start <= s.len()) {
        Ok(Seq::empty())
    } else {
        match segment_end(s, start) {
            None => Err(ParseFailure::UnbalancedQuote { segment: s.skip(start) }),
            Some(end) => match classify(s.subrange(start, end)) {
                Err(failure) => Err(failure),
                Ok(step) => if start <= end < s.len() {
                    match parse_from(s, end + 1) {
                        Ok(rest) => Ok(seq![step] + rest),
                        Err(failure) => Err(failure),
                    }
                } else {
                    Ok(seq![step])
                },
            },
        }
    }
}

/// The steps that a selection expression spells.
///
/// The empty expression spells no step. Any other is cut into segments at
/// each `.` that does not lie in a quoted span, and each segment is read by
/// `classify`. The first segment that fails decides the failure; a quoted
/// span that is still open at the end of the input is an unbalanced quote.
pub open spec fn parse(s: Seq<char>) -> Result<Seq<Step>, ParseFailure> {
    if s.len() == 0 {
        Ok(Seq::empty())
    } else {
        parse_from(s, 0)
    }
}

/// A segment that `classify` accepts gives a well-formed step.
pub proof fn lemma_classify_wf(segment: Seq<char>)
    ensures
        classify(segment) matches Ok(step) ==> step.wf(),
{
}

/// Every step that `parse_from` gives is well-formed.
pub proof fn lemma_parse_from_wf(s: Seq<char>, start: int)
    ensures
        parse_from(s, start) matches Ok(steps) ==> forall|i: int|
            0 <= i < steps.len() ==> (#[trigger] steps[i]).wf(),
    decreases s.len() - start,
{
    if 0 <= start <= s.len() {
        if let Some(end) = segment_end(s, start) {
            lemma_classify_wf(s.subrange(start, end));
            if start <= end < s.len() {
                lemma_parse_from_wf(s, end + 1);
            }
        }
    }
}

/// Whether the segment is a field whose name stands between double quotes.
pub open spec fn is_quoted(segment: Seq<char>) -> bool {
    let rest = if segment.len() > 0 && segment[0] == '=' {
        segment.skip(1)
    } else {
        segment
    };
    rest.len() >= 2 && rest.first() == '"' && rest.last() == '"'
}

/// From `start` on, quotes stand only where they are needed: every segment
/// that is written between double quotes holds a `.`.
pub open spec fn unambiguous_from(s: Seq<char>, start: int) -> bool
    decreases s.len() - start,
{
    if !(0 <= start <= s.len()) {
        true
    } else {
        match segment_end(s, start) {
            None => true,
            Some(end) => {
                &&& is_quoted(s.subrange(start, end)) ==> s.subrange(start, end).contains('.')
                &&& start <= end < s.len() ==> unambiguous_from(s, end + 1)
            },
        }
    }
}

/// An expression is unambiguous when it spells a path and has quotes only
/// where they are needed: no other expression spells its path more plainly.
pub open spec fn unambiguous(s: Seq<char>) -> bool {
    parse(s) is Ok && unambiguous_from(s, 0)
}

/// A segment that opens no quoted span holds no `.`.
pub proof fn lemma_plain_segment_has_no_dot(s: Seq<char>, start: int)
    requires
        0 <= start <= s.len(),
        !opens_quote(s, start),
    ensures
        segment_end(s, start) matches Some(end) && start <= end <= s.len() && !s.subrange(
            start,
            end,
        ).contains('.'),
{
    lemma_segment_end_from(s, start, start);
    assert(closes_at(s, start, s.len() as int));
    let end = segment_end(s, start)->Some_0;
    let segment = s.subrange(start, end);
    assert forall|i: int| 0 <= i < segment.len() implies segment[i] != '.' by {
        assert(!closes_at(s, start, start + i));
    }
}

/// A segment that needs its quotes, if it has any, is the canonical text of
/// the step that it is read as.
pub proof fn lemma_segment_text(s: Seq<char>, start: int)
    requires
        0 <= start <= s.len(),
        segment_end(s, start) matches Some(end) && {
            &&& classify(s.subrange(start, end)) is Ok
            &&& is_quoted(s.subrange(start, end)) ==> s.subrange(start, end).contains('.')
        },
    ensures
        segment_end(s, start) matches Some(end) && classify(s.subrange(start, end))->Ok_0.text()
            == s.subrange(start, end),
{
    lemma_segment_end_from(s, start, start);
    let end = segment_end(s, start)->Some_0;
    let segment = s.subrange(start, end);
    if let Step::Field { name, with_name } = classify(segment)->Ok_0 {
        if is_quoted(segment) {
            let at = choose|i: int| 0 <= i < segment.len() && segment[i] == '.';
            let before: int = if with_name {
                2
            } else {
                1
            };
            assert(name[at - before] == '.');
        } else {
            lemma_plain_segment_has_no_dot(s, start);
        }
    }
}

/// One step of a selection path; see [`Step`] for what each stands for.
#[derive(Debug, PartialEq, Eq)]
pub enum Token {
    /// `*`
    Any,
    /// `[]`
    Array,
    /// `{}`
    Object,
    /// A field by name, with `=` before it where `with_name` holds. The name
    /// is never empty in a token that the tokenizer gives.
    Field { name: String, with_name: bool },
}

impl View for Token {
    type V = Step;

    open spec fn view(&self) -> Step {
        match self {
            Token::Any => Step::Any,
            Token::Array => Step::Array,
            Token::Object => Step::Object,
            Token::Field { name, with_name } => Step::Field { name: name@, with_name: *with_name },
        }
    }
}

impl Clone for Token {
    fn clone(&self) -> (copy: Self)
        ensures
            copy@ == self@,
    {
        match self {
            Token::Any => Token::Any,
            Token::Array => Token::Array,
            Token::Object => Token::Object,
            Token::Field { name, with_name } => Token::Field {
                name: name.clone(),
                with_name: *with_name,
            },
        }
    }
}

/// The models of a list of tokens.
pub open spec fn steps_of(tokens: Seq<Token>) -> Seq<Step> {
    Seq::new(tokens.len(), |i: int| tokens[i]@)
}

/// The error of the tokenizer: a message.
#[derive(Debug, PartialEq, Eq)]
pub struct TokenParsingError {
    msg: String,
}

impl View for TokenParsingError {
    type V = Seq<char>;

    closed spec fn view(&self) -> Seq<char> {
        self.msg@
    }
}

/// The characters of `s`, one by one.
fn chars_of(s: &str) -> (chars: Vec<char>)
    ensures
        chars@ == s@,
{
    let mut chars: Vec<char> = Vec::new();
    for c in it: s.chars()
        invariant
            chars@ == it.seq().take(it.index()),
    {
        chars.push(c);
    }
    chars
}

/// Whether `c` occurs in `s`.
fn has_char(s: &str, c: char) -> (found: bool)
    ensures
        found == s@.contains(c),
{
    let chars = chars_of(s);
    let mut i: usize = 0;
    while i < chars.len()
        invariant
            i <= chars.len(),
            chars@ == s@,
            forall|k: int| 0 <= k < i ==> s@[k] != c,
        decreases chars.len() - i,
    {
        if chars[i] == c {
            return true;
        }
        i += 1;
    }
    false
}

impl Clone for TokenParsingError {
    fn clone(&self) -> (copy: Self)
        ensures
            copy@ == self@,
    {
        TokenParsingError { msg: self.msg.clone() }
    }
}

impl TokenParsingError {
    /// An error with the message `s`.
    pub fn from(s: &str) -> (error: Self)
        ensures
            error@ == s@,
    {
        TokenParsingError { msg: String::from_str(s) }
    }

    /// An error with the message `s`; this never fails.
    pub fn from_str(s: &str) -> (made: Result<Self, String>)
        ensures
            made matches Ok(error) && error@ == s@,
    {
        Ok(TokenParsingError::from(s))
    }

    /// The message.
    pub fn to_string(&self) -> (text: String)
        ensures
            text@ == self@,
    {
        self.msg.clone()
    }

    /// The error that reports the unbalanced quote of a segment.
    fn of_segment(segment: &str) -> (error: Self)
        ensures
            error@ == (ParseFailure::UnbalancedQuote { segment: segment@ }).text(),
    {
        let mut msg = String::from_str("Token ");
        msg.append(segment);
        msg.append(" contains unbalanced '\"' )");
        TokenParsingError { msg }
    }

    /// The error that reports an empty segment.
    fn empty() -> (error: Self)
        ensures
            error@ == ParseFailure::EmptySegment.text(),
    {
        TokenParsingError { msg: String::from_str("Cannot convert empty string") }
    }

    /// The error for the whole expression `input`, given the error of one of
    /// its segments.
    fn for_input(&self, input: &str) -> (error: Self)
        ensures
            error@ == "Error parsing '"@ + input@ + "' - "@ + self@,
    {
        let mut msg = String::from_str("Error parsing '");
        msg.append(input);
        msg.append("' - ");
        msg.append(self.msg.as_str());
        TokenParsingError { msg }
    }
}

impl Token {
    /// The token as written without quotes: the mark and the bare name.
    pub fn label(&self) -> (text: String)
        ensures
            text@ == self@.label(),
    {
        match self {
            Token::Any => {
                proof {
                    reveal_strlit("*");
                }
                String::from_str("*")
            },
            Token::Array => {
                proof {
                    reveal_strlit("[]");
                }
                String::from_str("[]")
            },
            Token::Object => {
                proof {
                    reveal_strlit("{}");
                }
                String::from_str("{}")
            },
            Token::Field { name, with_name } => {
                let mut text = String::new();
                if *with_name {
                    proof {
                        reveal_strlit("=");
                    }
                    text.append("=");
                }
                text.append(name.as_str());
                text
            },
        }
    }

    /// The canonical text of the token: `*`, `[]`, `{}`, or the name of the
    /// field, after `=` where the field is marked, and between double quotes
    /// where the name holds a `.`.
    pub fn to_string(&self) -> (text: String)
        ensures
            text@ == self@.text(),
    {
        match self {
            Token::Field { name, with_name } => {
                if has_char(name.as_str(), '.') {
                    let mut text = String::new();
                    proof {
                        reveal_strlit("=");
                        reveal_strlit("\"");
                    }
                    if *with_name {
                        text.append("=");
                    }
                    text.append("\"");
                    text.append(name.as_str());
                    text.append("\"");
                    text
                } else {
                    self.label()
                }
            },
            _ => self.label(),
        }
    }

    /// Reads one segment of a selection path.
    ///
    /// The result is the token that `classify` gives for the segment, or the
    /// error whose message reports why it gives none.
    pub fn from_str(s: &str) -> (read: Result<Token, TokenParsingError>)
        ensures
            match classify(s@) {
                Ok(step) => read matches Ok(token) && token@ == step,
                Err(failure) => read matches Err(error) && error@ == failure.text(),
            },
    {
        let chars = chars_of(s);
        let n = chars.len();
        if n == 2 && chars[0] == '{' && chars[1] == '}' {
            assert(s@ =~= object_text());
            return Ok(Token::Object);
        }
        if n == 2 && chars[0] == '[' && chars[1] == ']' {
            assert(s@ =~= array_text());
            return Ok(Token::Array);
        }
        if n == 1 && chars[0] == '*' {
            assert(s@ =~= any_text());
            return Ok(Token::Any);
        }
        if n == 0 {
            return Err(TokenParsingError::empty());
        }
        let with_name = chars[0] == '=';
        let from: usize = if with_name {
            1
        } else {
            0
        };
        let ghost rest = if with_name {
            s@.skip(1)
        } else {
            s@
        };
        assert(rest =~= s@.subrange(from as int, n as int));
        if from == n {
            return Err(TokenParsingError::empty());
        }
        let opens = chars[from] == '"';
        let closes = chars[n - 1] == '"';
        if opens || closes {
            if !(opens && closes && n - from >= 2) {
                return Err(TokenParsingError::of_segment(s));
            }
            if n - from == 2 {
                return Err(TokenParsingError::empty());
            }
            let name = String::from_str(s.substring_char(from + 1, n - 1));
            assert(name@ =~= rest.subrange(1, rest.len() - 1));
            Ok(Token::Field { name, with_name })
        } else {
            let name = String::from_str(s.substring_char(from, n));
            Ok(Token::Field { name, with_name })
        }
    }

    /// Reads one segment of a selection path, as `from_str` does.
    pub fn try_from(s: &str) -> (read: Result<Token, TokenParsingError>)
        ensures
            match classify(s@) {
                Ok(step) => read matches Ok(token) && token@ == step,
                Err(failure) => read matches Err(error) && error@ == failure.text(),
            },
    {
        Token::from_str(s)
    }
}

/// The result of reading on after the steps `done`.
spec fn after(done: Seq<Step>, rest: Result<Seq<Step>, ParseFailure>) -> Result<
    Seq<Step>,
    ParseFailure,
> {
    match rest {
        Ok(steps) => Ok(done + steps),
        Err(failure) => Err(failure),
    }
}

/// The state of the tokenizer within a segment.
#[derive(Debug, Clone, Copy, PartialEq, Eq)]
pub enum Scan {
    /// Outside a quoted span: the segment ends at the next `.` or at the end
    /// of the input.
    Idle,
    /// Inside a quoted span: the segment ends at such a place only where a
    /// `"` stands before it, and any other `.` belongs to the segment.
    InQuote,
}

/// The state in which the segment that starts at `start` is scanned: a
/// segment that begins with `"` or with `="` opens a quoted span.
pub fn scan_state(chars: &Vec<char>, start: usize) -> (state: Scan)
    requires
        start <= chars.len(),
    ensures
        state is InQuote <==> opens_quote(chars@, start as int),
{
    let n = chars.len();
    if start < n && chars[start] == '"' {
        Scan::InQuote
    } else if start < n && n - start >= 2 && chars[start] == '=' && chars[start + 1] == '"' {
        Scan::InQuote
    } else {
        Scan::Idle
    }
}

/// Whether a segment that starts at `start` and is scanned in `state` may
/// end at the boundary `at`.
fn ends_segment(chars: &Vec<char>, state: Scan, start: usize, at: usize) -> (ends: bool)
    requires
        start <= at <= chars.len(),
        is_boundary(chars@, at as int),
        state is InQuote <==> opens_quote(chars@, start as int),
    ensures
        ends == closes_at(chars@, start as int, at as int),
{
    match state {
        Scan::Idle => true,
        Scan::InQuote => at > start && chars[at - 1] == '"',
    }
}

/// Where the segment that starts at `start` ends, if it does: at the first
/// boundary at which the state of the scan lets it end. A quoted span that
/// is still open at the end of the input has no end.
pub fn find_segment_end(chars: &Vec<char>, start: usize) -> (found: Option<usize>)
    requires
        start <= chars.len(),
    ensures
        match segment_end(chars@, start as int) {
            Some(end) => found == Some(end as usize) && start <= end <= chars.len(),
            None => found is None,
        },
{
    let n = chars.len();
    let state = scan_state(chars, start);
    let mut at: usize = start;
    while at < n
        invariant
            start <= at <= n,
            n == chars.len(),
            state is InQuote <==> opens_quote(chars@, start as int),
            segment_end(chars@, start as int) == segment_end_from(chars@, start as int, at as int),
        decreases n - at,
    {
        if chars[at] == '.' && ends_segment(chars, state, start, at) {
            return Some(at);
        }
        at += 1;
    }
    if ends_segment(chars, state, start, n) {
        Some(n)
    } else {
        None
    }
}

/// Reads a selection expression.
///
/// The result is the list of tokens that `parse` gives for the text, or the
/// error whose message names the expression and reports the first failure.
pub fn parse_tokens(s: &str) -> (read: Result<Vec<Token>, TokenParsingError>)
    ensures
        match parse(s@) {
            Ok(steps) => {
                &&& read matches Ok(tokens)
                &&& steps_of(tokens@) == steps
                &&& forall|i: int| 0 <= i < steps.len() ==> (#[trigger] steps[i]).wf()
            },
            Err(failure) => read matches Err(error) && error@ == failure.text_for(s@),
        },
{
    let chars = chars_of(s);
    let n = chars.len();
    let mut result: Vec<Token> = Vec::new();
    if n == 0 {
        return Ok(result);
    }
    proof {
        lemma_parse_from_wf(s@, 0);
    }
    let mut start: usize = 0;
    assert(steps_of(result@) =~= Seq::empty());
    assert(after(Seq::empty(), parse_from(s@, 0)) =~= parse_from(s@, 0));
    loop
        invariant
            n == chars.len(),
            chars@ == s@,
            start <= n,
            parse(s@) == parse_from(s@, 0),
            parse_from(s@, 0) == after(steps_of(result@), parse_from(s@, start as int)),
            parse_from(s@, 0) matches Ok(steps) ==> forall|i: int|
                0 <= i < steps.len() ==> (#[trigger] steps[i]).wf(),
        decreases n - start,
    {
        match find_segment_end(&chars, start) {
            None => {
                let open = TokenParsingError::of_segment(s.substring_char(start, n));
                return Err(open.for_input(s));
            },
            Some(end) => {
                match Token::from_str(s.substring_char(start, end)) {
                    Err(error) => {
                        return Err(error.for_input(s));
                    },
                    Ok(token) => {
                        let ghost done = steps_of(result@);
                        result.push(token);
                        if end == n {
                            return Ok(result);
                        }
                        proof {
                            if let Ok(rest) = parse_from(s@, end + 1) {
                                assert(done + (seq![token@] + rest) =~= steps_of(result@) + rest);
                            }
                        }
                        start = end + 1;
                    },
                }
            },
        }
    }
}

} // verus!
