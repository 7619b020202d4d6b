//! The head of an HTTP/1.x request: the request line and the header fields.

use vstd::prelude::*;
use crate::text::{
    CharClass, first_line, is_trimmed, is_word, lemma_run_len_is, lemma_tokens_are_words,
    lemma_trim_is_trimmed, lines, next_line, next_token, run_len, scan, string_of, to_chars,
    tokens, trim, trim_range,
};

verus! {

/// Why a text is not the head of a request.
#[derive(Clone, Copy, Debug, PartialEq, Eq, Structural)]
pub enum ParseError {
    /// The text has no line at all.
    Empty,
    /// The request line has no token.
    MissingMethod,
    /// The request line ends after the method.
    MissingPath,
    /// The request line ends after the path.
    MissingVersion,
}

impl ParseError {
    /// The words that describe the error.
    pub open spec fn message_text(self) -> Seq<char> {
        match self {
            ParseError::Empty => "Empty request"@,
            ParseError::MissingMethod => "No method"@,
            ParseError::MissingPath => "No path"@,
            ParseError::MissingVersion => "No version"@,
        }
    }

    /// Describes the error in words.
    pub fn message(&self) -> (r: String)
        ensures
            r@ == self.message_text(),
    {
        match self {
            ParseError::Empty => "Empty request".to_owned(),
            ParseError::MissingMethod => "No method".to_owned(),
            ParseError::MissingPath => "No path".to_owned(),
            ParseError::MissingVersion => "No version".to_owned(),
        }
    }
}

/// A header field: its name and its value.
pub type Field = (Seq<char>, Seq<char>);

/// What a request holds, as plain sequences of characters.
pub struct RequestModel {
    pub method: Seq<char>,
    pub path: Seq<char>,
    pub version: Seq<char>,
    pub headers: Seq<Field>,
}

impl RequestModel {
    /// Method, path and version are words: none is empty or holds
    /// whitespace. The name and the value of each header are trimmed.
    pub open spec fn well_formed(self) -> bool {
        &&& is_word(self.method)
        &&& is_word(self.path)
        &&& is_word(self.version)
        &&& forall|i: int|
            0 <= i < self.headers.len() ==> is_trimmed((#[trigger] self.headers[i]).0)
                && is_trimmed(self.headers[i].1)
    }
}

/// The field that a header line states, if it holds a colon: the name is
/// what stands before the first colon, the value what stands after it, both
/// trimmed.
pub open spec fn header_field(line: Seq<char>) -> Option<Field> {
    let k = run_len(line, CharClass::Except(':')) as int;
    if k < line.len() {
        Some((trim(line.take(k)), trim(line.skip(k + 1))))
    } else {
        None
    }
}

/// The fields of the header lines `ls`, in their order. The first empty line
/// ends the headers; a line without a colon states no field.
pub open spec fn header_fields(ls: Seq<Seq<char>>) -> Seq<Field>
    decreases ls.len(),
{
    if ls.len() == 0 || ls[0].len() == 0 {
        Seq::empty()
    } else {
        match header_field(ls[0]) {
            Some(f) => seq![f] + header_fields(ls.drop_first()),
            None => header_fields(ls.drop_first()),
        }
    }
}

/// The request line `line` taken apart: its first three tokens are method,
/// path and version, and further tokens count for nothing.
pub open spec fn request_line(line: Seq<char>) -> Result<(Seq<char>, Seq<char>, Seq<char>), ParseError> {
    let ts = tokens(line);
    if ts.len() == 0 {
        Err(ParseError::MissingMethod)
    } else if ts.len() == 1 {
        Err(ParseError::MissingPath)
    } else if ts.len() == 2 {
        Err(ParseError::MissingVersion)
    } else {
        Ok((ts[0], ts[1], ts[2]))
    }
}

/// What a text means as the head of a request.
pub open spec fn parse_spec(s: Seq<char>) -> Result<RequestModel, ParseError> {
    let ls = lines(s);
    if ls.len() == 0 {
        Err(ParseError::Empty)
    } else {
        match request_line(ls[0]) {
            Err(e) => Err(e),
            Ok((method, path, version)) => Ok(
                RequestModel { method, path, version, headers: header_fields(ls.drop_first()) },
            ),
        }
    }
}

/// Only the first colon of a header line splits it: a name that holds no
/// colon, a colon, and any value at all state that name and that value,
/// each trimmed.
pub proof fn lemma_first_colon_splits(name: Seq<char>, value: Seq<char>)
    requires
        forall|j: int| 0 <= j < name.len() ==> #[trigger] name[j] != ':',
    ensures
        header_field(name + seq![':'] + value) == Some((trim(name), trim(value))),
{
    let line = name + seq![':'] + value;
    let class = CharClass::Except(':');
    assert forall|j: int| 0 <= j < name.len() implies class.holds(#[trigger] line[j]) by {
        assert(line[j] == name[j]);
    }
    assert(line[name.len() as int] == ':');
    lemma_run_len_is(line, class, name.len() as int);
    assert(line.take(name.len() as int) =~= name);
    assert(line.skip(name.len() as int + 1) =~= value);
}

/// Header lines state their fields in their own order: the fields of a
/// block of lines, none of them empty, followed by further lines are the
/// fields of the block followed by the fields of those further lines.
pub proof fn lemma_header_fields_follow_lines(block: Seq<Seq<char>>, further: Seq<Seq<char>>)
    requires
        forall|i: int| 0 <= i < block.len() ==> (#[trigger] block[i]).len() > 0,
    ensures
        header_fields(block + further) == header_fields(block) + header_fields(further),
    decreases block.len(),
{
    let all = block + further;
    if block.len() == 0 {
        assert(all =~= further);
        assert(header_fields(block) + header_fields(further) =~= header_fields(further));
    } else {
        let rest = block.drop_first();
        assert(all[0] == block[0]);
        assert(block[0].len() > 0);
        assert(all.drop_first() =~= rest + further);
        assert forall|i: int| 0 <= i < rest.len() implies (#[trigger] rest[i]).len() > 0 by {
            assert(rest[i] == block[i + 1]);
        }
        lemma_header_fields_follow_lines(rest, further);
        match header_field(block[0]) {
            Some(f) => {
                assert(seq![f] + (header_fields(rest) + header_fields(further)) =~= (seq![f]
                    + header_fields(rest)) + header_fields(further));
            },
            None => {},
        }
    }
}

/// The first empty line ends the headers: no line after it counts.
pub proof fn lemma_empty_line_ends_headers(ls: Seq<Seq<char>>, k: int)
    requires
        0 <= k < ls.len(),
        ls[k].len() == 0,
    ensures
        header_fields(ls) == header_fields(ls.take(k)),
    decreases k,
{
    let head = ls.take(k);
    if k == 0 || ls[0].len() == 0 {
        if k > 0 {
            assert(head[0] == ls[0]);
        }
    } else {
        let rest = ls.drop_first();
        assert(rest[k - 1] == ls[k]);
        lemma_empty_line_ends_headers(rest, k - 1);
        assert(head[0] == ls[0]);
        assert(head.drop_first() =~= rest.take(k - 1));
    }
}

/// The name and the value of every field of a header block are trimmed.
pub proof fn lemma_header_fields_are_trimmed(ls: Seq<Seq<char>>, i: int)
    requires
        0 <= i < header_fields(ls).len(),
    ensures
        is_trimmed(header_fields(ls)[i].0),
        is_trimmed(header_fields(ls)[i].1),
    decreases ls.len(),
{
    let line = ls[0];
    let k = run_len(line, CharClass::Except(':')) as int;
    match header_field(line) {
        Some(f) => {
            if i == 0 {
                lemma_trim_is_trimmed(line.take(k));
                lemma_trim_is_trimmed(line.skip(k + 1));
            } else {
                lemma_header_fields_are_trimmed(ls.drop_first(), i - 1);
            }
        },
        None => {
            lemma_header_fields_are_trimmed(ls.drop_first(), i);
        },
    }
}

/// Whatever parses is well formed.
pub proof fn lemma_parsed_is_well_formed(s: Seq<char>)
    ensures
        parse_spec(s) matches Ok(request) ==> request.well_formed(),
{
    if let Ok(request) = parse_spec(s) {
        let ls = lines(s);
        lemma_tokens_are_words(ls[0], 0);
        lemma_tokens_are_words(ls[0], 1);
        lemma_tokens_are_words(ls[0], 2);
        assert forall|i: int| 0 <= i < request.headers.len() implies is_trimmed(
            (#[trigger] request.headers[i]).0,
        ) && is_trimmed(request.headers[i].1) by {
            lemma_header_fields_are_trimmed(ls.drop_first(), i);
        }
    }
}

/// Each failure names what is missing: `Empty` comes for the empty text and
/// no other, and a text with a first line fails with the error of the first
/// of method, path and version that its request line lacks, and parses
/// where the line has all three.
pub proof fn lemma_error_names_what_is_missing(s: Seq<char>)
    ensures
        parse_spec(s) == Err::<RequestModel, ParseError>(ParseError::Empty) <==> s.len() == 0,
        s.len() > 0 ==> (parse_spec(s) == Err::<RequestModel, ParseError>(
            ParseError::MissingMethod,
        ) <==> tokens(first_line(s)).len() == 0),
        s.len() > 0 ==> (parse_spec(s) == Err::<RequestModel, ParseError>(ParseError::MissingPath)
            <==> tokens(first_line(s)).len() == 1),
        s.len() > 0 ==> (parse_spec(s) == Err::<RequestModel, ParseError>(
            ParseError::MissingVersion,
        ) <==> tokens(first_line(s)).len() == 2),
        s.len() > 0 ==> (parse_spec(s) is Ok <==> tokens(first_line(s)).len() >= 3),
{
    if s.len() > 0 {
        assert(lines(s)[0] == first_line(s));
    }
}

/// Headers come out in the order of the lines that state them, one for
/// each line, so that a name sent twice is there twice: where the `n` lines
/// after the request line each state a field, and the headers end there,
/// the request has `n` headers, and the one at `i` is the field of the line
/// at `i` after the request line.
pub proof fn lemma_headers_keep_wire_order(s: Seq<char>, n: int)
    requires
        parse_spec(s) is Ok,
        0 <= n < lines(s).len(),
        forall|i: int|
            1 <= i <= n ==> (#[trigger] lines(s)[i]).len() > 0 && header_field(lines(s)[i]) is Some,
        n + 1 < lines(s).len() ==> lines(s)[n + 1].len() == 0,
    ensures
        parse_spec(s) matches Ok(request) && request.headers.len() == n && forall|i: int|
            0 <= i < n ==> Some(#[trigger] request.headers[i]) == header_field(lines(s)[i + 1]),
{
    let ls = lines(s).drop_first();
    assert forall|i: int| 0 <= i < n implies (#[trigger] ls[i]).len() > 0 && header_field(
        ls[i],
    ) is Some by {
        assert(ls[i] == lines(s)[i + 1]);
    }
    lemma_header_fields_in_order(ls, n);
    assert forall|i: int| 0 <= i < n implies Some(#[trigger] header_fields(ls)[i]) == header_field(
        lines(s)[i + 1],
    ) by {
        assert(ls[i] == lines(s)[i + 1]);
    }
}

/// Where the first `n` lines each state a field and the block ends after
/// them, the block has `n` fields, the one at `i` stated by the line at `i`.
pub proof fn lemma_header_fields_in_order(ls: Seq<Seq<char>>, n: int)
    requires
        0 <= n <= ls.len(),
        forall|i: int| 0 <= i < n ==> (#[trigger] ls[i]).len() > 0 && header_field(ls[i]) is Some,
        n < ls.len() ==> ls[n].len() == 0,
    ensures
        header_fields(ls).len() == n,
        forall|i: int| 0 <= i < n ==> Some(#[trigger] header_fields(ls)[i]) == header_field(ls[i]),
    decreases n,
{
    if n > 0 {
        let rest = ls.drop_first();
        assert(ls[0].len() > 0 && header_field(ls[0]) is Some);
        assert forall|i: int| 0 <= i < n - 1 implies (#[trigger] rest[i]).len() > 0
            && header_field(rest[i]) is Some by {
            assert(rest[i] == ls[i + 1]);
        }
        lemma_header_fields_in_order(rest, n - 1);
        assert forall|i: int| 0 <= i < n implies Some(#[trigger] header_fields(ls)[i])
            == header_field(ls[i]) by {
            if i > 0 {
                assert(header_fields(ls)[i] == header_fields(rest)[i - 1]);
                assert(rest[i - 1] == ls[i]);
            }
        }
    }
}

/// The fields that a vector of headers holds.
pub open spec fn fields_of(headers: Seq<(String, String)>) -> Seq<Field> {
    Seq::new(headers.len(), |i: int| (headers[i].0@, headers[i].1@))
}

/// The head of a request, as it was sent.
#[derive(Debug)]
pub struct HttpRequest {
    method: String,
    path: String,
    version: String,
    headers: Vec<(String, String)>,
}

impl View for HttpRequest {
    type V = RequestModel;

    closed spec fn view(&self) -> RequestModel {
        RequestModel {
            method: self.method@,
            path: self.path@,
            version: self.version@,
            headers: fields_of(self.headers@),
        }
    }
}

/// Reads the header lines of `text` from `start` on.
pub fn parse_headers(text: &Vec<char>, start: usize) -> (headers: Vec<(String, String)>)
    requires
        start <= text.len(),
    ensures
        fields_of(headers@) == header_fields(lines(text@.skip(start as int))),
{
    let len: usize = text.len();
    let mut headers: Vec<(String, String)> = Vec::new();
    let mut pos: usize = start;
    proof {
        assert(fields_of(headers@) + header_fields(lines(text@.skip(pos as int)))
            =~= header_fields(lines(text@.skip(start as int))));
    }
    while pos < len
        invariant
            len == text.len(),
            start <= pos <= len,
            header_fields(lines(text@.skip(start as int))) == fields_of(headers@) + header_fields(
                lines(text@.skip(pos as int)),
            ),
        ensures
            fields_of(headers@) == header_fields(lines(text@.skip(start as int))),
        decreases len - pos,
    {
        let (end, next) = next_line(text, pos);
        let ghost rest = text@.skip(pos as int);
        let ghost line = text@.subrange(pos as int, end as int);
        let ghost ls = lines(rest);
        proof {
            assert(rest.len() > 0);
            assert(ls[0] == line);
            assert(ls.drop_first() =~= lines(text@.skip(next as int)));
        }
        if end == pos {
            proof {
                assert(fields_of(headers@) + Seq::<Field>::empty() =~= fields_of(headers@));
            }
            break ;
        }
        let colon: usize = scan(text, pos, end, CharClass::Except(':'));
        if colon < end {
            let (name_from, name_to) = trim_range(text, pos, colon);
            let (value_from, value_to) = trim_range(text, colon + 1, end);
            let name = string_of(text, name_from, name_to);
            let value = string_of(text, value_from, value_to);
            let ghost before = fields_of(headers@);
            headers.push((name, value));
            proof {
                assert(line.take(colon - pos) =~= text@.subrange(pos as int, colon as int));
                assert(line.skip(colon - pos + 1) =~= text@.subrange(colon + 1, end as int));
                let f = (name@, value@);
                assert(header_field(line) == Some(f));
                assert(fields_of(headers@) =~= before + seq![f]);
                assert((before + seq![f]) + header_fields(ls.drop_first()) =~= before + (seq![f]
                    + header_fields(ls.drop_first())));
            }
        }
        pos = next;
    }
    headers
}

impl HttpRequest {
    #[verifier::type_invariant]
    spec fn valid(self) -> bool {
        self@.well_formed()
    }

    /// Reads the head of a request from `request`: the request line, then the
    /// header fields up to the first empty line.
    pub fn parse(request: &str) -> (r: Result<HttpRequest, ParseError>)
        ensures
            match r {
                Ok(req) => parse_spec(request@) == Ok::<RequestModel, ParseError>(req@)
                    && req@.well_formed(),
                Err(e) => parse_spec(request@) == Err::<RequestModel, ParseError>(e),
            },
    {
        let text = to_chars(request);
        let len: usize = text.len();
        if len == 0 {
            return Err(ParseError::Empty);
        }
        let (end, next) = next_line(&text, 0);
        let ghost line = text@.subrange(0, end as int);
        let ghost ts = tokens(line);
        proof {
            assert(text@.skip(0) =~= text@);
            assert(lines(text@)[0] == line);
            assert(lines(text@).drop_first() =~= lines(text@.skip(next as int)));
        }
        let (method_from, method_to) = match next_token(&text, 0, end) {
            Some(t) => t,
            None => { return Err(ParseError::MissingMethod); },
        };
        let (path_from, path_to) = match next_token(&text, method_to, end) {
            Some(t) => t,
            None => { return Err(ParseError::MissingPath); },
        };
        let (version_from, version_to) = match next_token(&text, path_to, end) {
            Some(t) => t,
            None => { return Err(ParseError::MissingVersion); },
        };
        let headers = parse_headers(&text, next);
        let method = string_of(&text, method_from, method_to);
        let path = string_of(&text, path_from, path_to);
        let version = string_of(&text, version_from, version_to);
        proof {
            assert(ts.len() >= 3);
            assert(ts[0] == method@);
            assert(ts[1] == path@);
            assert(ts[2] == version@);
            lemma_parsed_is_well_formed(request@);
        }
        Ok(HttpRequest { method, path, version, headers })
    }

    /// The method, as it was sent: a word.
    pub fn method(&self) -> (r: &str)
        ensures
            r@ == self@.method,
            is_word(r@),
    {
        proof {
            use_type_invariant(self);
        }
        self.method.as_str()
    }

    /// The request target, as it was sent: a word.
    pub fn path(&self) -> (r: &str)
        ensures
            r@ == self@.path,
            is_word(r@),
    {
        proof {
            use_type_invariant(self);
        }
        self.path.as_str()
    }

    /// The protocol version, as it was sent: a word.
    pub fn version(&self) -> (r: &str)
        ensures
            r@ == self@.version,
            is_word(r@),
    {
        proof {
            use_type_invariant(self);
        }
        self.version.as_str()
    }

    /// The header fields, in the order in which they were sent, names and
    /// values trimmed.
    pub fn headers(&self) -> (r: &Vec<(String, String)>)
        ensures
            fields_of(r@) == self@.headers,
            self@.well_formed(),
    {
        proof {
            use_type_invariant(self);
        }
        &self.headers
    }
}

} // verus!
