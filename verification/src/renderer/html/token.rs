//! The HTML tokenizer: a state machine that is polled for one token at a time.

use vstd::prelude::*;
use super::attribute::{attribute_views, Attribute, AttributeView};
use crate::text::{chars_of, push_char};

verus! {

/// The states of the tokenizer. Only `Data`, `TagOpen`, `EndTagOpen` and
/// `TagName` have transitions; in each of the others the input is read and
/// passed over.
#[derive(Debug, Clone, Copy, PartialEq, Eq)]
pub enum State {
    Data,
    TagOpen,
    EndTagOpen,
    TagName,
    BeforeAttributeName,
    AttributeName,
    AfterAttributeName,
    BeforeAttributeValue,
    AttributeValueDoubleQuoted,
    AttributeValueSingleQuoted,
    AttributeValueUnquoted,
    AfterAttributeValueQuoted,
    SelfClosingStartTag,
    ScriptData,
    ScriptDataLessThanSign,
    ScriptDataEndTagOpen,
    ScriptDataEndTagName,
    TemporaryBuffer,
}

/// A lexical token of an HTML document.
#[derive(Debug, PartialEq, Eq)]
pub enum HtmlToken {
    /// A start tag.
    StartTag { tag: String, self_closing: bool, attributes: Vec<Attribute> },
    /// An end tag.
    EndTag { tag: String },
    /// One character of text.
    Char(char),
    /// The end of the input.
    Eof,
}

/// A token, as sequences of characters.
pub enum HtmlTokenView {
    StartTag { tag: Seq<char>, self_closing: bool, attributes: Seq<AttributeView> },
    EndTag { tag: Seq<char> },
    Char(char),
    Eof,
}

impl View for HtmlToken {
    type V = HtmlTokenView;

    open spec fn view(&self) -> HtmlTokenView {
        match *self {
            HtmlToken::StartTag { tag, self_closing, attributes } => HtmlTokenView::StartTag {
                tag: tag@,
                self_closing,
                attributes: attribute_views(attributes@),
            },
            HtmlToken::EndTag { tag } => HtmlTokenView::EndTag { tag: tag@ },
            HtmlToken::Char(c) => HtmlTokenView::Char(c),
            HtmlToken::Eof => HtmlTokenView::Eof,
        }
    }
}

impl Clone for HtmlToken {
    fn clone(&self) -> (copy: Self)
        ensures
            copy@ == self@,
    {
        match self {
            HtmlToken::StartTag { tag, self_closing, attributes } => {
                let copied = attributes.clone();
                assert(attribute_views(copied@) =~= attribute_views(attributes@));
                HtmlToken::StartTag {
                    tag: tag.clone(),
                    self_closing: *self_closing,
                    attributes: copied,
                }
            },
            HtmlToken::EndTag { tag } => HtmlToken::EndTag { tag: tag.clone() },
            HtmlToken::Char(c) => HtmlToken::Char(*c),
            HtmlToken::Eof => HtmlToken::Eof,
        }
    }
}

/// The token that an optional token stands for, as sequences of characters.
pub open spec fn token_view(token: Option<HtmlToken>) -> Option<HtmlTokenView> {
    match token {
        Some(token) => Some(token@),
        None => None,
    }
}

/// The tokenizer, as plain values: its state, its cursor into the input, whether
/// the character before the cursor is to be read again, the tag that is being
/// put together, the input, the scratch buffer, and whether the end of the
/// input has been read.
pub struct TokenizerView {
    pub state: State,
    pub pos: nat,
    pub reconsume: bool,
    pub pending: Option<HtmlTokenView>,
    pub input: Seq<char>,
    pub buf: Seq<char>,
    pub past_end: bool,
}

/// What one step of the machine asks of the one who polls it.
pub enum Outcome {
    /// Nothing is ready: take another step.
    Continue,
    /// This token is ready.
    Emit(HtmlTokenView),
    /// No token will come.
    Stop,
}

/// Whether `c` is one of the letters `A` to `Z`.
pub open spec fn is_ascii_upper(c: char) -> bool {
    'A' as u32 <= c as u32 <= 'Z' as u32
}

/// Whether `c` is one of the letters `a` to `z` or `A` to `Z`.
pub open spec fn is_ascii_letter(c: char) -> bool {
    is_ascii_upper(c) || 'a' as u32 <= c as u32 <= 'z' as u32
}

/// The lower-case form of a letter `A` to `Z`; any other character itself.
pub open spec fn to_ascii_lower(c: char) -> char {
    if is_ascii_upper(c) {
        (c as u32 + 32) as char
    } else {
        c
    }
}

/// A tokenizer that has read nothing of `input` yet.
pub open spec fn initial(input: Seq<char>) -> TokenizerView {
    TokenizerView {
        state: State::Data,
        pos: 0,
        reconsume: false,
        pending: None,
        input,
        buf: Seq::empty(),
        past_end: false,
    }
}

/// Whether the tokenizer has read the end of its input: no poll gives a
/// token from there.
pub open spec fn at_end(t: TokenizerView) -> bool {
    t.past_end || t.pos > t.input.len()
}

/// A start tag or an end tag without a name.
pub open spec fn empty_tag(start_tag: bool) -> HtmlTokenView {
    if start_tag {
        HtmlTokenView::StartTag { tag: Seq::empty(), self_closing: false, attributes: Seq::empty() }
    } else {
        HtmlTokenView::EndTag { tag: Seq::empty() }
    }
}

/// The pending token with `c` added to its name, where it is a tag; as it is
/// where it is none.
pub open spec fn with_tag_char(pending: Option<HtmlTokenView>, c: char) -> Option<HtmlTokenView> {
    match pending {
        Some(HtmlTokenView::StartTag { tag, self_closing, attributes }) => Some(
            HtmlTokenView::StartTag { tag: tag.push(c), self_closing, attributes },
        ),
        Some(HtmlTokenView::EndTag { tag }) => Some(HtmlTokenView::EndTag { tag: tag.push(c) }),
        _ => pending,
    }
}

/// Reading the next character. Where the character before the cursor is to be
/// read again, it is read and the cursor stays. Otherwise the character at the
/// cursor is read and the cursor moves on; at the end of the input there is
/// none to read, and the end counts as read from then on.
pub open spec fn read(t: TokenizerView) -> (TokenizerView, Option<char>) {
    if t.reconsume {
        (
            TokenizerView { reconsume: false, ..t },
            if !t.past_end && 1 <= t.pos <= t.input.len() {
                Some(t.input[t.pos - 1])
            } else {
                None
            },
        )
    } else if !t.past_end && t.pos < t.input.len() {
        (TokenizerView { pos: t.pos + 1, ..t }, Some(t.input[t.pos as int]))
    } else {
        (TokenizerView { past_end: true, ..t }, None)
    }
}

/// What the machine does in state `t.state` with the character `c` that was
/// read, `None` standing for the end of the input.
pub open spec fn transition(t: TokenizerView, c: Option<char>) -> (TokenizerView, Outcome) {
    match t.state {
        State::Data => match c {
            Some(c) => if c == '<' {
                (TokenizerView { state: State::TagOpen, ..t }, Outcome::Continue)
            } else {
                (t, Outcome::Emit(HtmlTokenView::Char(c)))
            },
            None => (t, Outcome::Emit(HtmlTokenView::Eof)),
        },
        State::TagOpen => match c {
            Some(c) => if c == '/' {
                (TokenizerView { state: State::EndTagOpen, ..t }, Outcome::Continue)
            } else if is_ascii_letter(c) {
                (
                    TokenizerView {
                        reconsume: true,
                        state: State::TagName,
                        pending: Some(empty_tag(true)),
                        ..t
                    },
                    Outcome::Continue,
                )
            } else {
                (TokenizerView { reconsume: true, state: State::Data, ..t }, Outcome::Continue)
            },
            None => (t, Outcome::Emit(HtmlTokenView::Eof)),
        },
        State::EndTagOpen => match c {
            Some(c) => if is_ascii_letter(c) {
                (
                    TokenizerView {
                        reconsume: true,
                        state: State::TagName,
                        pending: Some(empty_tag(false)),
                        ..t
                    },
                    Outcome::Continue,
                )
            } else {
                (t, Outcome::Continue)
            },
            None => (t, Outcome::Emit(HtmlTokenView::Eof)),
        },
        State::TagName => match c {
            Some(c) => if c == ' ' {
                (TokenizerView { state: State::BeforeAttributeName, ..t }, Outcome::Continue)
            } else if c == '/' {
                (TokenizerView { state: State::SelfClosingStartTag, ..t }, Outcome::Continue)
            } else if c == '>' {
                match t.pending {
                    Some(token) => (
                        TokenizerView { state: State::Data, pending: None, ..t },
                        Outcome::Emit(token),
                    ),
                    None => (TokenizerView { state: State::Data, ..t }, Outcome::Stop),
                }
            } else {
                (
                    TokenizerView { pending: with_tag_char(t.pending, to_ascii_lower(c)), ..t },
                    Outcome::Continue,
                )
            },
            None => (t, Outcome::Emit(HtmlTokenView::Eof)),
        },
        _ => match c {
            Some(_) => (t, Outcome::Continue),
            None => (t, Outcome::Stop),
        },
    }
}

/// One step of the machine: a character is read and the state's transition
/// is taken on it.
pub open spec fn step(t: TokenizerView) -> (TokenizerView, Outcome) {
    let (after_read, c) = read(t);
    transition(after_read, c)
}

/// A bound on the number of steps that the machine can take from `t` before
/// a token is ready or none will come.
pub open spec fn steps_left(t: TokenizerView) -> nat {
    let unread: nat = if at_end(t) {
        0
    } else {
        (t.input.len() + 1 - t.pos) as nat
    };
    let again: nat = if t.reconsume {
        2
    } else {
        0
    };
    let opening: nat = if t.state is TagOpen || t.state is EndTagOpen {
        1
    } else {
        0
    };
    4 * unread + again + opening
}

/// Every step after which the machine goes on brings it nearer to its end.
pub proof fn lemma_step_decreases(t: TokenizerView)
    ensures
        step(t).1 is Continue ==> steps_left(step(t).0) < steps_left(t),
{
}

/// The machine run from `t` until a token is ready or none will come: where
/// it then stands, and the token.
pub open spec fn run(t: TokenizerView) -> (TokenizerView, Option<HtmlTokenView>)
    decreases steps_left(t),
{
    let (next, outcome) = step(t);
    match outcome {
        Outcome::Continue => {
            proof {
                lemma_step_decreases(t);
            }
            run(next)
        },
        Outcome::Emit(token) => (next, Some(token)),
        Outcome::Stop => (next, None),
    }
}

/// One poll of the tokenizer: nothing once the end of the input has been
/// read, else what running the machine gives.
pub open spec fn poll(t: TokenizerView) -> (TokenizerView, Option<HtmlTokenView>) {
    if at_end(t) {
        (t, None)
    } else {
        run(t)
    }
}

/// The tokenizer: it owns its input and gives out one token at each poll.
#[derive(Debug, PartialEq, Eq)]
pub struct HtmlTokenizer {
    state: State,
    pos: usize,
    reconsume: bool,
    latest_token: Option<HtmlToken>,
    input: Vec<char>,
    buf: String,
    /// Whether the end of the input has been read.
    past_end: bool,
}

impl View for HtmlTokenizer {
    type V = TokenizerView;

    closed spec fn view(&self) -> TokenizerView {
        TokenizerView {
            state: self.state,
            pos: self.pos as nat,
            reconsume: self.reconsume,
            pending: token_view(self.latest_token),
            input: self.input@,
            buf: self.buf@,
            past_end: self.past_end,
        }
    }
}

impl Clone for HtmlTokenizer {
    fn clone(&self) -> (copy: Self)
        ensures
            copy@ == self@,
    {
        let latest_token = match &self.latest_token {
            Some(token) => Some(token.clone()),
            None => None,
        };
        Self {
            state: self.state,
            pos: self.pos,
            reconsume: self.reconsume,
            latest_token,
            input: self.input.clone(),
            buf: self.buf.clone(),
            past_end: self.past_end,
        }
    }
}

/// Whether `c` is one of the letters `A` to `Z`.
fn is_upper(c: char) -> (b: bool)
    ensures
        b == is_ascii_upper(c),
{
    let code: u32 = c as u32;
    65 <= code && code <= 90
}

/// Whether `c` is one of the letters `a` to `z` or `A` to `Z`.
fn is_letter(c: char) -> (b: bool)
    ensures
        b == is_ascii_letter(c),
{
    let code: u32 = c as u32;
    (65 <= code && code <= 90) || (97 <= code && code <= 122)
}

/// The lower-case form of a letter `A` to `Z`; any other character itself.
fn to_lower(c: char) -> (lower: char)
    ensures
        lower == to_ascii_lower(c),
{
    if is_upper(c) {
        let code: u8 = c as u8;
        (code + 32) as char
    } else {
        c
    }
}

impl HtmlTokenizer {
    /// A tokenizer at the beginning of `html`.
    pub fn new(html: String) -> (tokenizer: Self)
        ensures
            tokenizer@ == initial(html@),
    {
        Self {
            state: State::Data,
            pos: 0,
            reconsume: false,
            latest_token: None,
            input: chars_of(html.as_str()),
            buf: String::new(),
            past_end: false,
        }
    }

    /// Reads the character at the cursor and moves the cursor on. At the end
    /// of the input there is none, and the end counts as read.
    fn consume_next_input(&mut self) -> (c: Option<char>)
        requires
            !old(self)@.reconsume,
        ensures
            (final(self)@, c) == read(old(self)@),
    {
        if !self.past_end && self.pos < self.input.len() {
            let c = self.input[self.pos];
            self.pos += 1;
            Some(c)
        } else {
            self.past_end = true;
            None
        }
    }

    /// Reads the character before the cursor again.
    fn reconsume_input(&mut self) -> (c: Option<char>)
        requires
            old(self)@.reconsume,
        ensures
            (final(self)@, c) == read(old(self)@),
    {
        self.reconsume = false;
        if !self.past_end && 1 <= self.pos && self.pos <= self.input.len() {
            Some(self.input[self.pos - 1])
        } else {
            None
        }
    }

    /// Whether the end of the input has been read.
    fn is_eof(&self) -> (b: bool)
        ensures
            b == at_end(self@),
    {
        self.past_end || self.pos > self.input.len()
    }

    /// Begins a start tag or an end tag, with an empty name.
    fn create_tag(&mut self, start_tag_token: bool)
        ensures
            final(self)@ == (TokenizerView {
                pending: Some(empty_tag(start_tag_token)),
                ..old(self)@
            }),
    {
        if start_tag_token {
            let attributes: Vec<Attribute> = Vec::new();
            assert(attribute_views(attributes@) =~= Seq::empty());
            self.latest_token = Some(
                HtmlToken::StartTag { tag: String::new(), self_closing: false, attributes },
            );
        } else {
            self.latest_token = Some(HtmlToken::EndTag { tag: String::new() });
        }
    }

    /// Adds `c` to the name of the tag that is being put together.
    fn append_tag_name(&mut self, c: char)
        ensures
            final(self)@ == (TokenizerView {
                pending: with_tag_char(old(self)@.pending, c),
                ..old(self)@
            }),
    {
        let token = self.latest_token.take();
        self.latest_token = match token {
            Some(HtmlToken::StartTag { tag, self_closing, attributes }) => {
                let mut tag = tag;
                push_char(&mut tag, c);
                Some(HtmlToken::StartTag { tag, self_closing, attributes })
            },
            Some(HtmlToken::EndTag { tag }) => {
                let mut tag = tag;
                push_char(&mut tag, c);
                Some(HtmlToken::EndTag { tag })
            },
            other => other,
        };
    }

    /// Hands out the tag that was being put together.
    fn take_latest_token(&mut self) -> (token: Option<HtmlToken>)
        ensures
            token_view(token) == old(self)@.pending,
            final(self)@ == (TokenizerView { pending: None, ..old(self)@ }),
    {
        self.latest_token.take()
    }

    /// The next token, or `None` when no token will come. The end of the
    /// input is given as the token `Eof` by the state that meets it, once;
    /// after it, and after input that ends in a state without transitions,
    /// every poll gives `None`. The scratch buffer is left as it was.
    pub fn next(&mut self) -> (token: Option<HtmlToken>)
        ensures
            (final(self)@, token_view(token)) == poll(old(self)@),
    {
        if self.is_eof() {
            return None;
        }
        let ghost start = self@;
        loop
            invariant
                poll(old(self)@) == run(start),
                run(self@) == run(start),
            decreases steps_left(self@),
        {
            let ghost before = self@;
            proof {
                lemma_step_decreases(before);
            }
            let c = if self.reconsume {
                self.reconsume_input()
            } else {
                self.consume_next_input()
            };
            match self.state {
                State::Data => match c {
                    Some(c) => {
                        if c == '<' {
                            self.state = State::TagOpen;
                            continue ;
                        }
                        return Some(HtmlToken::Char(c));
                    },
                    None => {
                        return Some(HtmlToken::Eof);
                    },
                },
                State::TagOpen => match c {
                    Some(c) => {
                        if c == '/' {
                            self.state = State::EndTagOpen;
                            continue ;
                        }
                        if is_letter(c) {
                            self.reconsume = true;
                            self.state = State::TagName;
                            self.create_tag(true);
                            continue ;
                        }
                        self.reconsume = true;
                        self.state = State::Data;
                    },
                    None => {
                        return Some(HtmlToken::Eof);
                    },
                },
                State::EndTagOpen => match c {
                    Some(c) => {
                        if is_letter(c) {
                            self.reconsume = true;
                            self.state = State::TagName;
                            self.create_tag(false);
                            continue ;
                        }
                    },
                    None => {
                        return Some(HtmlToken::Eof);
                    },
                },
                State::TagName => match c {
                    Some(c) => {
                        if c == ' ' {
                            self.state = State::BeforeAttributeName;
                            continue ;
                        }
                        if c == '/' {
                            self.state = State::SelfClosingStartTag;
                            continue ;
                        }
                        if c == '>' {
                            self.state = State::Data;
                            return self.take_latest_token();
                        }
                        self.append_tag_name(to_lower(c));
                    },
                    None => {
                        return Some(HtmlToken::Eof);
                    },
                },
                _ => match c {
                    Some(_) => {},
                    None => {
                        return None;
                    },
                },
            }
        }
    }
}

/// Where the tokenizer stands after `n` polls.
pub open spec fn after_polls(t: TokenizerView, n: nat) -> TokenizerView
    decreases n,
{
    if n == 0 {
        t
    } else {
        poll(after_polls(t, (n - 1) as nat)).0
    }
}

/// What the poll that follows `n` polls gives.
pub open spec fn nth_token(t: TokenizerView, n: nat) -> Option<HtmlTokenView> {
    poll(after_polls(t, n)).1
}

/// What holds of every tokenizer that polling can reach: the cursor is
/// within the input or at its end; a character is read again only where
/// there is one, and only in the states `Data` and `TagName`; and in the
/// state `TagName` a tag is being put together.
pub open spec fn well_formed(t: TokenizerView) -> bool {
    &&& t.pos <= t.input.len()
    &&& t.reconsume ==> !t.past_end && 1 <= t.pos && (t.state is Data || t.state is TagName)
    &&& t.state is TagName ==> t.pending is Some && (t.pending->Some_0 is StartTag
        || t.pending->Some_0 is EndTag)
}

/// A step keeps a tokenizer well formed, and from a well-formed tokenizer it
/// stops without a token only at the end of the input, in a state that has
/// no transitions.
pub proof fn lemma_step_keeps_well_formed(t: TokenizerView)
    requires
        well_formed(t),
    ensures
        well_formed(step(t).0),
        step(t).1 is Stop ==> step(t).0.past_end && !(t.state is Data || t.state is TagOpen
            || t.state is EndTagOpen || t.state is TagName),
{
}

proof fn lemma_run_keeps_well_formed(t: TokenizerView)
    requires
        well_formed(t),
    ensures
        well_formed(run(t).0),
    decreases steps_left(t),
{
    lemma_step_keeps_well_formed(t);
    lemma_step_decreases(t);
    if step(t).1 is Continue {
        lemma_run_keeps_well_formed(step(t).0);
    }
}

/// A new tokenizer is well formed, and so is every tokenizer after any
/// number of polls.
pub proof fn lemma_polls_keep_well_formed(input: Seq<char>, n: nat)
    ensures
        well_formed(after_polls(initial(input), n)),
    decreases n,
{
    if n > 0 {
        lemma_polls_keep_well_formed(input, (n - 1) as nat);
        lemma_run_keeps_well_formed(after_polls(initial(input), (n - 1) as nat));
    }
}

proof fn lemma_run_ends_past_the_end(t: TokenizerView)
    requires
        well_formed(t),
    ensures
        run(t).1 is None || run(t).1 == Some(HtmlTokenView::Eof) ==> run(t).0.past_end,
    decreases steps_left(t),
{
    lemma_step_keeps_well_formed(t);
    lemma_step_decreases(t);
    if step(t).1 is Continue {
        lemma_run_ends_past_the_end(step(t).0);
    }
}

/// The end is final. After a poll of a well-formed tokenizer that gives
/// `Eof`, or no token, the end of the input has been read; and from there
/// every poll gives no token and changes nothing.
pub proof fn lemma_end_is_final(t: TokenizerView)
    requires
        well_formed(t),
    ensures
        poll(t).1 is None || poll(t).1 == Some(HtmlTokenView::Eof) ==> poll(poll(t).0) == (
            poll(t).0,
            None::<HtmlTokenView>,
        ),
{
    if !at_end(t) {
        lemma_run_ends_past_the_end(t);
    }
}

proof fn lemma_text_after_polls(input: Seq<char>, n: nat)
    requires
        forall|i: int| 0 <= i < input.len() ==> input[i] != '<',
    ensures
        after_polls(initial(input), n) == (TokenizerView {
            pos: if n <= input.len() {
                n
            } else {
                input.len()
            },
            past_end: n > input.len(),
            ..initial(input)
        }),
    decreases n,
{
    if n > 0 {
        lemma_text_after_polls(input, (n - 1) as nat);
    }
}

/// Input in which no `<` occurs, such as one made of letters only, gives one
/// `Char` token for each of its characters, in order, then `Eof`, and after
/// that nothing.
pub proof fn lemma_text_gives_chars_then_eof(input: Seq<char>, n: nat)
    requires
        forall|i: int| 0 <= i < input.len() ==> input[i] != '<',
    ensures
        n < input.len() ==> nth_token(initial(input), n) == Some(
            HtmlTokenView::Char(input[n as int]),
        ),
        n == input.len() ==> nth_token(initial(input), n) == Some(HtmlTokenView::Eof),
        n > input.len() ==> nth_token(initial(input), n) is None,
{
    lemma_text_after_polls(input, n);
}

} // verus!
