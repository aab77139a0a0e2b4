//! Reading a raw HTTP/1.x response: status line, headers and body.

use vstd::prelude::*;
use crate::error::Error;
use crate::text::{
    after, before, chars_of, find_char, has_char, lemma_first_index, skip_white_space, string_of,
    trim, trim_start, trimmed_string_of,
};

verus! {

/// A header, as sequences of characters.
pub struct HeaderView {
    pub name: Seq<char>,
    pub value: Seq<char>,
}

/// A response, as sequences of characters.
pub struct ResponseView {
    pub version: Seq<char>,
    pub status_code: u32,
    pub reason: Seq<char>,
    pub headers: Seq<HeaderView>,
    pub body: Seq<char>,
}

/// The status code of a response whose status line holds no number.
pub const FALLBACK_STATUS_CODE: u32 = 404;

/// `s` with every carriage return that stands directly before a line feed
/// left out, so that each `\r\n` has become `\n`.
pub open spec fn normalize_newlines(s: Seq<char>) -> Seq<char>
    decreases s.len(),
{
    if s.len() == 0 {
        s
    } else if s.len() >= 2 && s[0] == '\r' && s[1] == '\n' {
        seq!['\n'] + normalize_newlines(s.skip(2))
    } else {
        seq![s[0]] + normalize_newlines(s.skip(1))
    }
}

/// The text that is taken apart: the raw text without the white space that it
/// begins with, its line endings normalized.
pub open spec fn normalized(raw: Seq<char>) -> Seq<char> {
    normalize_newlines(trim_start(raw))
}

/// Whether an empty line ends at `i + 1`: two line feeds stand at `i` and `i + 1`.
pub open spec fn blank_line_at(s: Seq<char>, i: int) -> bool {
    0 <= i && i + 1 < s.len() && s[i] == '\n' && s[i + 1] == '\n'
}

/// `i` is where the first blank-line marker of `s` begins, or the length of
/// `s` if it has none.
pub open spec fn is_first_blank_line(s: Seq<char>, i: int) -> bool {
    &&& 0 <= i <= s.len()
    &&& forall|j: int| 0 <= j < i ==> !blank_line_at(s, j)
    &&& i < s.len() ==> blank_line_at(s, i)
}

/// Where the first blank-line marker of `s` begins; the length of `s` if it
/// has none.
pub open spec fn first_blank_line(s: Seq<char>) -> int {
    choose|i: int| is_first_blank_line(s, i)
}

/// Whether `s` holds a blank-line marker.
pub open spec fn has_blank_line(s: Seq<char>) -> bool {
    first_blank_line(s) < s.len()
}

proof fn lemma_first_blank_line_from(s: Seq<char>, k: int)
    requires
        0 <= k <= s.len(),
        forall|j: int| 0 <= j < k ==> !blank_line_at(s, j),
    ensures
        exists|i: int| is_first_blank_line(s, i),
    decreases s.len() - k,
{
    if k == s.len() || blank_line_at(s, k) {
        assert(is_first_blank_line(s, k));
    } else {
        lemma_first_blank_line_from(s, k + 1);
    }
}

/// `first_blank_line` is well defined, and is the one position that
/// `is_first_blank_line` admits.
pub proof fn lemma_first_blank_line(s: Seq<char>, i: int)
    ensures
        is_first_blank_line(s, first_blank_line(s)),
        is_first_blank_line(s, i) ==> first_blank_line(s) == i,
{
    lemma_first_blank_line_from(s, 0);
    let k = first_blank_line(s);
    if is_first_blank_line(s, i) {
        if k < i {
            assert(blank_line_at(s, k));
        } else if i < k {
            assert(blank_line_at(s, i));
        }
    }
}

/// The header block of what follows the status line: what stands before the
/// first blank-line marker, or nothing where there is no such marker.
pub open spec fn header_block(remaining: Seq<char>) -> Seq<char> {
    if has_blank_line(remaining) {
        remaining.take(first_blank_line(remaining))
    } else {
        Seq::empty()
    }
}

/// The body of what follows the status line: what stands after the first
/// blank-line marker, or all of it where there is no such marker.
pub open spec fn body_of(remaining: Seq<char>) -> Seq<char> {
    if has_blank_line(remaining) {
        remaining.skip(first_blank_line(remaining) + 2)
    } else {
        remaining
    }
}

/// The header that a line with a colon stands for: name and value are what
/// stands before and after the first colon, without the white space around them.
pub open spec fn header_of(line: Seq<char>) -> HeaderView {
    HeaderView { name: trim(before(line, ':')), value: trim(after(line, ':')) }
}

/// The headers of a block that is not empty, line by line; `None` where a
/// line has no colon.
pub open spec fn header_lines(block: Seq<char>) -> Option<Seq<HeaderView>>
    decreases block.len(),
{
    let line = before(block, '\n');
    if !has_char(line, ':') {
        None
    } else if !has_char(block, '\n') {
        Some(seq![header_of(line)])
    } else {
        proof {
            lemma_first_index(block, '\n');
        }
        match header_lines(after(block, '\n')) {
            Some(rest) => Some(seq![header_of(line)] + rest),
            None => None,
        }
    }
}

/// The headers of a header block: none for an empty block.
pub open spec fn headers_of(block: Seq<char>) -> Option<Seq<HeaderView>> {
    if block.len() == 0 {
        Some(Seq::empty())
    } else {
        header_lines(block)
    }
}

/// Whether `c` is one of the digits `0` to `9`.
pub open spec fn is_digit(c: char) -> bool {
    '0' as u32 <= c as u32 <= '9' as u32
}

/// The number that a sequence of digits denotes in base ten.
pub open spec fn decimal(digits: Seq<char>) -> nat
    decreases digits.len(),
{
    if digits.len() == 0 {
        0
    } else {
        (10 * decimal(digits.drop_last()) + (digits.last() as u32 - '0' as u32)) as nat
    }
}

/// Whether `s` holds digits only.
pub open spec fn all_digits(s: Seq<char>) -> bool {
    forall|i: int| 0 <= i < s.len() ==> is_digit(#[trigger] s[i])
}

/// `field` without the `+` that it may begin with.
pub open spec fn unsigned(field: Seq<char>) -> Seq<char> {
    if field.len() > 0 && field[0] == '+' {
        field.skip(1)
    } else {
        field
    }
}

/// The number that a field denotes: one or more digits, after at most one
/// `+`, whose value fits in 32 bits. `None` for any other field.
pub open spec fn number_of(field: Seq<char>) -> Option<u32> {
    let digits = unsigned(field);
    if digits.len() > 0 && all_digits(digits) && decimal(digits) <= u32::MAX {
        Some(decimal(digits) as u32)
    } else {
        None
    }
}

/// The status code that the second field of a status line gives: its number,
/// or the fallback where it denotes none.
pub open spec fn status_code_of(field: Seq<char>) -> u32 {
    match number_of(field) {
        Some(code) => code,
        None => FALLBACK_STATUS_CODE,
    }
}

/// What a raw response holds, or `None` where it is malformed: its text has
/// no line break, its status line has fewer than three fields, or one of its
/// header lines has no colon.
pub open spec fn parse(raw: Seq<char>) -> Option<ResponseView> {
    let text = normalized(raw);
    let status_line = before(text, '\n');
    let remaining = after(text, '\n');
    let after_version = after(status_line, ' ');
    let after_code = after(after_version, ' ');
    if !has_char(text, '\n') || !has_char(status_line, ' ') || !has_char(after_version, ' ') {
        None
    } else {
        match headers_of(header_block(remaining)) {
            None => None,
            Some(headers) => Some(
                ResponseView {
                    version: before(status_line, ' '),
                    status_code: status_code_of(before(after_version, ' ')),
                    reason: before(after_code, ' '),
                    headers,
                    body: body_of(remaining),
                },
            ),
        }
    }
}

/// The digits of `digits` that stand before `k` denote no more than all of them.
proof fn lemma_decimal_prefix(digits: Seq<char>, k: int)
    requires
        0 <= k <= digits.len(),
        all_digits(digits),
    ensures
        decimal(digits.take(k)) <= decimal(digits),
    decreases digits.len() - k,
{
    if k == digits.len() {
        assert(digits.take(k) =~= digits);
    } else {
        lemma_decimal_prefix(digits, k + 1);
        assert(digits.take(k + 1).drop_last() =~= digits.take(k));
    }
}

/// The number that `v[from..to]` denotes, if it denotes one.
fn parse_number(v: &Vec<char>, from: usize, to: usize) -> (n: Option<u32>)
    requires
        from <= to <= v.len(),
    ensures
        n == number_of(v@.subrange(from as int, to as int)),
{
    let ghost field = v@.subrange(from as int, to as int);
    let start: usize = if from < to && v[from] == '+' {
        from + 1
    } else {
        from
    };
    let ghost digits = v@.subrange(start as int, to as int);
    assert(digits =~= unsigned(field));
    if start == to {
        return None;
    }
    let mut value: u32 = 0;
    let mut i: usize = start;
    while i < to
        invariant
            from <= start <= i <= to <= v.len(),
            digits == v@.subrange(start as int, to as int),
            field == v@.subrange(from as int, to as int),
            digits == unsigned(field),
            all_digits(digits.take(i - start)),
            value == decimal(digits.take(i - start)),
        decreases to - i,
    {
        let c = v[i];
        let code: u32 = c as u32;
        if code < 48 || code > 57 {
            assert(!is_digit(digits[i - start]));
            return None;
        }
        let d: u32 = code - 48;
        assert(digits.take(i - start + 1).drop_last() =~= digits.take(i - start));
        assert(digits.take(i - start + 1).last() == c);
        if value > (u32::MAX - d) / 10 {
            proof {
                if all_digits(digits) {
                    lemma_decimal_prefix(digits, i - start + 1);
                }
            }
            return None;
        }
        value = value * 10 + d;
        i += 1;
    }
    assert(digits.take(i - start) =~= digits);
    Some(value)
}

/// The characters of `v` from `from` on, with line endings normalized.
fn normalize(v: &Vec<char>, from: usize) -> (out: Vec<char>)
    requires
        from <= v.len(),
    ensures
        out@ == normalize_newlines(v@.skip(from as int)),
{
    let mut out: Vec<char> = Vec::new();
    let mut i: usize = from;
    while i < v.len()
        invariant
            from <= i <= v.len(),
            normalize_newlines(v@.skip(from as int)) == out@ + normalize_newlines(
                v@.skip(i as int),
            ),
        decreases v.len() - i,
    {
        let ghost rest = v@.skip(i as int);
        if v[i] == '\r' && i + 1 < v.len() && v[i + 1] == '\n' {
            assert(rest.skip(2) =~= v@.skip(i + 2));
            assert(out@ + (seq!['\n'] + normalize_newlines(rest.skip(2))) =~= out@.push('\n')
                + normalize_newlines(rest.skip(2)));
            out.push('\n');
            i += 2;
        } else {
            assert(rest.skip(1) =~= v@.skip(i + 1));
            assert(out@ + (seq![rest[0]] + normalize_newlines(rest.skip(1))) =~= out@.push(rest[0])
                + normalize_newlines(rest.skip(1)));
            out.push(v[i]);
            i += 1;
        }
    }
    assert(out@ + normalize_newlines(v@.skip(i as int)) =~= out@);
    out
}

/// Where the first blank-line marker of `v[from..]` begins, as a position in
/// `v`; the length of `v` if there is none.
fn find_blank_line(v: &Vec<char>, from: usize) -> (at: usize)
    requires
        from <= v.len(),
    ensures
        from <= at <= v.len(),
        at < v.len() ==> at + 2 <= v.len(),
        at - from == first_blank_line(v@.skip(from as int)),
{
    let ghost s = v@.skip(from as int);
    let mut i: usize = from;
    while i < v.len()
        invariant
            from <= i <= v.len(),
            s == v@.skip(from as int),
            forall|j: int| 0 <= j < i - from ==> !blank_line_at(s, j),
        decreases v.len() - i,
    {
        if v[i] == '\n' && i + 1 < v.len() && v[i + 1] == '\n' {
            proof {
                assert(blank_line_at(s, i - from));
                lemma_first_blank_line(s, i - from);
            }
            return i;
        }
        assert(!blank_line_at(s, i - from));
        i += 1;
    }
    proof {
        lemma_first_blank_line(s, i - from);
    }
    i
}

/// A header of a response: a name and a value.
#[derive(Debug, PartialEq, Eq)]
pub struct Header {
    name: String,
    value: String,
}

impl View for Header {
    type V = HeaderView;

    closed spec fn view(&self) -> HeaderView {
        HeaderView { name: self.name@, value: self.value@ }
    }
}

impl Clone for Header {
    fn clone(&self) -> (copy: Self)
        ensures
            copy == *self,
    {
        Header { name: self.name.clone(), value: self.value.clone() }
    }
}

impl Header {
    /// The header of the given name and value, each taken as it is.
    pub fn new(name: String, value: String) -> (header: Self)
        ensures
            header@ == (HeaderView { name: name@, value: value@ }),
    {
        Self { name, value }
    }

    /// The header's name.
    pub fn name(&self) -> (s: String)
        ensures
            s@ == self@.name,
    {
        self.name.clone()
    }

    /// The header's value.
    pub fn value(&self) -> (s: String)
        ensures
            s@ == self@.value,
    {
        self.value.clone()
    }
}

/// The headers of a list, each as sequences of characters.
pub open spec fn header_views(headers: Seq<Header>) -> Seq<HeaderView> {
    Seq::new(headers.len(), |i: int| headers[i]@)
}

/// The headers that `headers` holds, followed by those that follow.
pub open spec fn followed_by(
    headers: Seq<HeaderView>,
    following: Option<Seq<HeaderView>>,
) -> Option<Seq<HeaderView>> {
    match following {
        Some(rest) => Some(headers + rest),
        None => None,
    }
}

/// The headers of the block `v[from..to]`, or `None` where one of its lines
/// has no colon.
fn parse_headers(v: &Vec<char>, from: usize, to: usize) -> (r: Option<Vec<Header>>)
    requires
        from <= to <= v.len(),
    ensures
        match headers_of(v@.subrange(from as int, to as int)) {
            Some(headers) => r is Some && header_views(r->Some_0@) == headers,
            None => r is None,
        },
{
    let mut headers: Vec<Header> = Vec::new();
    if from == to {
        assert(header_views(headers@) =~= Seq::empty());
        return Some(headers);
    }
    let ghost block = v@.subrange(from as int, to as int);
    let mut start: usize = from;
    assert(followed_by(header_views(headers@), header_lines(block)) =~= header_lines(block)) by {
        assert(header_views(headers@) =~= Seq::empty());
        if header_lines(block) is Some {
            assert(Seq::<HeaderView>::empty() + header_lines(block)->Some_0 =~= header_lines(
                block,
            )->Some_0);
        }
    }
    loop
        invariant
            from <= start <= to <= v.len(),
            from < to,
            block == v@.subrange(from as int, to as int),
            header_lines(block) == followed_by(
                header_views(headers@),
                header_lines(v@.subrange(start as int, to as int)),
            ),
        decreases to - start,
    {
        let ghost rest = v@.subrange(start as int, to as int);
        let ghost done = header_views(headers@);
        let end = find_char(v, start, to, '\n');
        let colon = find_char(v, start, end, ':');
        proof {
            lemma_first_index(rest, '\n');
            assert(before(rest, '\n') =~= v@.subrange(start as int, end as int));
        }
        if colon == end {
            return None;
        }
        let ghost line = v@.subrange(start as int, end as int);
        proof {
            lemma_first_index(line, ':');
            assert(before(line, ':') =~= v@.subrange(start as int, colon as int));
            assert(after(line, ':') =~= v@.subrange(colon + 1, end as int));
        }
        let name = trimmed_string_of(v, start, colon);
        let value = trimmed_string_of(v, colon + 1, end);
        headers.push(Header::new(name, value));
        assert(header_views(headers@) =~= done + seq![header_of(line)]);
        if end == to {
            assert(header_lines(block) == Some(header_views(headers@)));
            return Some(headers);
        }
        proof {
            assert(after(rest, '\n') =~= v@.subrange(end + 1, to as int));
            let following = header_lines(v@.subrange(end + 1, to as int));
            if following is Some {
                assert(done + (seq![header_of(line)] + following->Some_0) =~= (done + seq![
                    header_of(line),
                ]) + following->Some_0);
            }
        }
        start = end + 1;
    }
}

/// An HTTP response: the fields of its status line, its headers and its body.
#[derive(Debug)]
pub struct HttpResponse {
    version: String,
    status_code: u32,
    reason: String,
    headers: Vec<Header>,
    body: String,
}

impl View for HttpResponse {
    type V = ResponseView;

    closed spec fn view(&self) -> ResponseView {
        ResponseView {
            version: self.version@,
            status_code: self.status_code,
            reason: self.reason@,
            headers: header_views(self.headers@),
            body: self.body@,
        }
    }
}

/// `i` is the place of the first header of the given name, or the number of
/// headers if none has that name.
pub open spec fn is_first_header(headers: Seq<HeaderView>, name: Seq<char>, i: int) -> bool {
    &&& 0 <= i <= headers.len()
    &&& forall|j: int| 0 <= j < i ==> (#[trigger] headers[j]).name != name
    &&& i < headers.len() ==> headers[i].name == name
}

impl Clone for HttpResponse {
    fn clone(&self) -> (copy: Self)
        ensures
            copy@ == self@,
    {
        let headers = self.headers.clone();
        assert(header_views(headers@) =~= header_views(self.headers@));
        HttpResponse {
            version: self.version.clone(),
            status_code: self.status_code,
            reason: self.reason.clone(),
            headers,
            body: self.body.clone(),
        }
    }
}

impl HttpResponse {
    /// Reads a raw response. White space before it is passed over and each
    /// `\r\n` counts as `\n`. The first line is the status line; what
    /// follows it, up to the first empty line, holds one header a line, and
    /// the rest is the body. Without an empty line there are no headers and
    /// all that follows the status line is the body. A status code that is no
    /// number becomes the fallback status code.
    pub fn new(raw_response: String) -> (r: Result<Self, Error>)
        ensures
            match parse(raw_response@) {
                Some(response) => r is Ok && r->Ok_0@ == response,
                None => r matches Err(Error::Malformed),
            },
    {
        let raw = chars_of(raw_response.as_str());
        let begin = skip_white_space(&raw, 0, raw.len());
        let text = normalize(&raw, begin);
        proof {
            assert(raw@.subrange(0, raw.len() as int) =~= raw@);
            assert(text@ == normalized(raw_response@));
            lemma_first_index(text@, '\n');
            assert(text@.subrange(0, text.len() as int) =~= text@);
        }
        let line_end = find_char(&text, 0, text.len(), '\n');
        if line_end == text.len() {
            return Err(Error::Malformed);
        }
        let ghost status_line = text@.subrange(0, line_end as int);
        let ghost remaining = text@.skip(line_end + 1);
        let first_space = find_char(&text, 0, line_end, ' ');
        if first_space == line_end {
            return Err(Error::Malformed);
        }
        let ghost after_version = text@.subrange(first_space + 1, line_end as int);
        proof {
            assert(after(status_line, ' ') =~= after_version);
        }
        let second_space = find_char(&text, first_space + 1, line_end, ' ');
        if second_space == line_end {
            return Err(Error::Malformed);
        }
        let ghost after_code = text@.subrange(second_space + 1, line_end as int);
        proof {
            assert(after(after_version, ' ') =~= after_code);
        }
        let third_space = find_char(&text, second_space + 1, line_end, ' ');
        let blank = find_blank_line(&text, line_end + 1);
        let (headers, body) = if blank < text.len() {
            proof {
                assert(remaining.take(blank - (line_end + 1)) =~= text@.subrange(
                    line_end + 1,
                    blank as int,
                ));
                assert(remaining.skip(blank - (line_end + 1) + 2) =~= text@.subrange(
                    blank + 2,
                    text.len() as int,
                ));
            }
            match parse_headers(&text, line_end + 1, blank) {
                Some(headers) => (headers, string_of(&text, blank + 2, text.len())),
                None => {
                    return Err(Error::Malformed);
                },
            }
        } else {
            proof {
                assert(remaining =~= text@.subrange(line_end + 1, text.len() as int));
            }
            let headers: Vec<Header> = Vec::new();
            assert(header_views(headers@) =~= Seq::empty());
            (headers, string_of(&text, line_end + 1, text.len()))
        };
        proof {
            assert(before(status_line, ' ') =~= text@.subrange(0, first_space as int));
            assert(before(after_version, ' ') =~= text@.subrange(
                first_space + 1,
                second_space as int,
            ));
            assert(before(after_code, ' ') =~= text@.subrange(
                second_space + 1,
                third_space as int,
            ));
        }
        let status_code = match parse_number(&text, first_space + 1, second_space) {
            Some(code) => code,
            None => FALLBACK_STATUS_CODE,
        };
        Ok(
            Self {
                version: string_of(&text, 0, first_space),
                status_code,
                reason: string_of(&text, second_space + 1, third_space),
                headers,
                body,
            },
        )
    }

    /// The protocol version: the first field of the status line.
    pub fn version(&self) -> (s: String)
        ensures
            s@ == self@.version,
    {
        self.version.clone()
    }

    /// The status code: the number in the second field of the status line.
    pub fn status_code(&self) -> (code: u32)
        ensures
            code == self@.status_code,
    {
        self.status_code
    }

    /// The reason phrase: the third field of the status line.
    pub fn reason(&self) -> (s: String)
        ensures
            s@ == self@.reason,
    {
        self.reason.clone()
    }

    /// The headers, in the order in which the response gave them.
    pub fn headers(&self) -> (headers: Vec<Header>)
        ensures
            header_views(headers@) == self@.headers,
    {
        let headers = self.headers.clone();
        assert(header_views(headers@) =~= header_views(self.headers@));
        headers
    }

    /// The body: what follows the first empty line.
    pub fn body(&self) -> (s: String)
        ensures
            s@ == self@.body,
    {
        self.body.clone()
    }

    /// The value of the first header whose name is exactly `name`.
    pub fn header_value(&self, name: &str) -> (r: Result<String, Error>)
        ensures
            match r {
                Ok(value) => exists|i: int|
                    is_first_header(self@.headers, name@, i) && i < self@.headers.len()
                        && value@ == self@.headers[i].value,
                Err(e) => e == Error::HeaderNotFound && is_first_header(
                    self@.headers,
                    name@,
                    self@.headers.len() as int,
                ),
            },
    {
        let wanted = name.to_string();
        let mut i: usize = 0;
        while i < self.headers.len()
            invariant
                i <= self.headers.len(),
                wanted@ == name@,
                forall|j: int| 0 <= j < i ==> (#[trigger] self@.headers[j]).name != name@,
            decreases self.headers.len() - i,
        {
            if self.headers[i].name == wanted {
                assert(is_first_header(self@.headers, name@, i as int));
                return Ok(self.headers[i].value.clone());
            }
            i += 1;
        }
        Err(Error::HeaderNotFound)
    }
}

} // verus!
