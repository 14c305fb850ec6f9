use vstd::prelude::*;
use vstd::string::*;
use crate::grammar::{
    attr_name_end, attr_spec, attrs_spec, closes_comment, comment_end, comment_spec, doctype_spec,
    end_tag_spec, find_char, is_attr_name_stop, is_name_stop, is_ws, lemma_attr_spec,
    lemma_find_char, lemma_next_spec, lemma_prepend_attrs, lemma_scan, name_end, next_spec,
    prepend_attrs, skip_ws, special_spec, start_tag_spec, tag_spec, text_end, token_seq, value_spec,
    StopSet, TokenView,
};

verus! {

/// Relies on `char::is_whitespace`: true exactly for the code points with the
/// Unicode `White_Space` property.
#[verifier::external_body]
fn char_is_whitespace(c: char) -> (r: bool)
    ensures
        r == is_ws(c),
{
    c.is_whitespace()
}

/// One lexical unit of HTML.
#[derive(Debug, Clone, PartialEq, Eq)]
pub enum HtmlToken {
    Doctype(String),
    StartTag { name: String, attributes: Vec<(String, String)>, self_closing: bool },
    EndTag { name: String },
    Text(String),
    Comment(String),
}

/// The names and values of an attribute list.
pub open spec fn attrs_view(v: Seq<(String, String)>) -> Seq<(Seq<char>, Seq<char>)> {
    v.map_values(|a: (String, String)| (a.0@, a.1@))
}

impl View for HtmlToken {
    type V = TokenView;

    open spec fn view(&self) -> TokenView {
        match self {
            HtmlToken::Doctype(t) => TokenView::Doctype(t@),
            HtmlToken::StartTag { name, attributes, self_closing } => TokenView::StartTag {
                name: name@,
                attributes: attrs_view(attributes@),
                self_closing: *self_closing,
            },
            HtmlToken::EndTag { name } => TokenView::EndTag { name: name@ },
            HtmlToken::Text(t) => TokenView::Text(t@),
            HtmlToken::Comment(t) => TokenView::Comment(t@),
        }
    }
}

pub open spec fn outcome_view(r: Result<HtmlToken, TokenizeError>) -> Result<TokenView, TokenizeError> {
    match r {
        Ok(t) => Ok(t@),
        Err(e) => Err(e),
    }
}

pub open spec fn pull_view(r: Option<Result<HtmlToken, TokenizeError>>) -> Option<
    Result<TokenView, TokenizeError>,
> {
    match r {
        Some(o) => Some(outcome_view(o)),
        None => None,
    }
}

pub open spec fn results_view(v: Seq<Result<HtmlToken, TokenizeError>>) -> Seq<
    Result<TokenView, TokenizeError>,
> {
    v.map_values(|r: Result<HtmlToken, TokenizeError>| outcome_view(r))
}

pub open spec fn attr_view(r: Option<Result<(String, String), TokenizeError>>) -> Option<
    Result<(Seq<char>, Seq<char>), TokenizeError>,
> {
    match r {
        Some(Ok(a)) => Some(Ok((a.0@, a.1@))),
        Some(Err(e)) => Some(Err(e)),
        None => None,
    }
}

pub open spec fn attrs_outcome_view(r: Result<Vec<(String, String)>, TokenizeError>) -> Result<
    Seq<(Seq<char>, Seq<char>)>,
    TokenizeError,
> {
    match r {
        Ok(v) => Ok(attrs_view(v@)),
        Err(e) => Err(e),
    }
}

pub open spec fn value_view(r: Result<String, TokenizeError>) -> Result<Seq<char>, TokenizeError> {
    match r {
        Ok(v) => Ok(v@),
        Err(e) => Err(e),
    }
}

fn is_name_stop_char(c: char) -> (r: bool)
    ensures
        r == is_name_stop(c),
{
    char_is_whitespace(c) || c == '>' || c == '/'
}

fn is_attr_name_stop_char(c: char) -> (r: bool)
    ensures
        r == is_attr_name_stop(c),
{
    is_name_stop_char(c) || c == '='
}

/// Why a construct could not be tokenized.
#[derive(Debug, Clone, PartialEq, Eq, Structural)]
pub enum TokenizeError {
    UnexpectedEOF,
    InvalidTag,
    InvalidAttribute,
    MalformedComment,
}

impl TokenizeError {
    /// A sentence that describes the error.
    pub fn message(&self) -> (r: &'static str)
        ensures
            *self == TokenizeError::UnexpectedEOF ==> r@ == "Unexpected end of input"@,
            *self == TokenizeError::InvalidTag ==> r@ == "Invalid HTML tag"@,
            *self == TokenizeError::InvalidAttribute ==> r@ == "Invalid HTML attribute"@,
            *self == TokenizeError::MalformedComment ==> r@ == "Malformed HTML comment"@,
    {
        match self {
            TokenizeError::UnexpectedEOF => "Unexpected end of input",
            TokenizeError::InvalidTag => "Invalid HTML tag",
            TokenizeError::InvalidAttribute => "Invalid HTML attribute",
            TokenizeError::MalformedComment => "Malformed HTML comment",
        }
    }
}

/// A lexical cursor over borrowed text: the text and a position counted in
/// characters.
pub struct HtmlTokenizer<'a> {
    input: &'a str,
    len: usize,
    position: usize,
}

impl<'a> HtmlTokenizer<'a> {
    /// The characters being tokenized.
    pub closed spec fn text(&self) -> Seq<char> {
        self.input@
    }

    /// The scan position, in characters.
    pub closed spec fn pos(&self) -> int {
        self.position as int
    }

    /// The cached length is the text's and the position lies within it.
    pub closed spec fn wf(&self) -> bool {
        &&& self.len as int == self.input@.len()
        &&& self.position <= self.len
    }

    pub fn new(input: &'a str) -> (r: Self)
        ensures
            r.wf(),
            r.text() == input@,
            r.pos() == 0,
    {
        HtmlTokenizer { input, len: input.unicode_len(), position: 0 }
    }

    fn peek(&self, offset: usize) -> (r: Option<char>)
        requires
            self.wf(),
        ensures
            self.pos() + offset < self.text().len() ==> r == Some(self.text()[self.pos() + offset]),
            self.pos() + offset >= self.text().len() ==> r is None,
    {
        if offset < self.len - self.position {
            Some(self.input.get_char(self.position + offset))
        } else {
            None
        }
    }

    fn advance(&mut self) -> (r: Option<char>)
        requires
            old(self).wf(),
        ensures
            final(self).wf(),
            final(self).text() == old(self).text(),
            old(self).pos() < old(self).text().len() ==> r == Some(old(self).text()[old(self).pos()])
                && final(self).pos() == old(self).pos() + 1,
            old(self).pos() >= old(self).text().len() ==> r is None && final(self).pos()
                == old(self).pos(),
    {
        if self.position < self.len {
            let c = self.input.get_char(self.position);
            self.position = self.position + 1;
            Some(c)
        } else {
            None
        }
    }

    fn advance_n(&mut self, n: usize)
        requires
            old(self).wf(),
        ensures
            final(self).wf(),
            final(self).text() == old(self).text(),
            final(self).pos() == if old(self).pos() + n <= old(self).text().len() {
                old(self).pos() + n
            } else {
                old(self).text().len() as int
            },
    {
        let mut i: usize = 0;
        while i < n
            invariant
                self.wf(),
                self.text() == old(self).text(),
                i <= n,
                self.pos() == if old(self).pos() + i <= self.text().len() {
                    old(self).pos() + i
                } else {
                    self.text().len() as int
                },
            ensures
                self.wf(),
                self.text() == old(self).text(),
                self.pos() == if old(self).pos() + n <= self.text().len() {
                    old(self).pos() + n
                } else {
                    self.text().len() as int
                },
            decreases n - i,
        {
            if self.advance().is_none() {
                break;
            }
            i = i + 1;
        }
    }

    fn is_eof(&self) -> (r: bool)
        requires
            self.wf(),
        ensures
            r == (self.pos() >= self.text().len()),
    {
        self.position >= self.len
    }

    fn skip_whitespace(&mut self)
        requires
            old(self).wf(),
        ensures
            final(self).wf(),
            final(self).text() == old(self).text(),
            final(self).pos() == skip_ws(old(self).text(), old(self).pos()),
    {
        while self.position < self.len
            invariant
                self.wf(),
                self.text() == old(self).text(),
                skip_ws(self.text(), self.pos()) == skip_ws(old(self).text(), old(self).pos()),
            ensures
                self.wf(),
                self.text() == old(self).text(),
                self.pos() == skip_ws(old(self).text(), old(self).pos()),
            decreases self.len - self.position,
        {
            let c = self.input.get_char(self.position);
            if char_is_whitespace(c) {
                self.position = self.position + 1;
            } else {
                break;
            }
        }
    }

    /// The characters from `from` to `to` as a new string.
    fn slice(&self, from: usize, to: usize) -> (r: String)
        requires
            self.wf(),
            from <= to <= self.text().len(),
        ensures
            r@ == self.text().subrange(from as int, to as int),
    {
        String::from_str(self.input.substring_char(from, to))
    }

    fn parse_tag_name(&mut self) -> (r: Option<String>)
        requires
            old(self).wf(),
        ensures
            final(self).wf(),
            final(self).text() == old(self).text(),
            final(self).pos() == name_end(old(self).text(), old(self).pos()),
            r is None <==> final(self).pos() == old(self).pos(),
            r matches Some(n) ==> n@ == old(self).text().subrange(old(self).pos(), final(self).pos()),
    {
        let start = self.position;
        loop
            invariant
                self.wf(),
                self.text() == old(self).text(),
                start == old(self).pos(),
                start <= self.position,
                name_end(self.text(), self.pos()) == name_end(self.text(), start as int),
            ensures
                self.wf(),
                self.text() == old(self).text(),
                start <= self.position,
                self.pos() == name_end(self.text(), start as int),
            decreases self.len - self.position,
        {
            match self.peek(0) {
                Some(c) => {
                    if is_name_stop_char(c) {
                        break;
                    }
                    self.advance();
                },
                None => break,
            }
        }
        if self.position == start {
            None
        } else {
            Some(self.slice(start, self.position))
        }
    }

    fn parse_attribute_name(&mut self) -> (r: Option<String>)
        requires
            old(self).wf(),
        ensures
            final(self).wf(),
            final(self).text() == old(self).text(),
            final(self).pos() == attr_name_end(old(self).text(), old(self).pos()),
            r is None <==> final(self).pos() == old(self).pos(),
            r matches Some(n) ==> n@ == old(self).text().subrange(old(self).pos(), final(self).pos()),
    {
        let start = self.position;
        loop
            invariant
                self.wf(),
                self.text() == old(self).text(),
                start == old(self).pos(),
                start <= self.position,
                attr_name_end(self.text(), self.pos()) == attr_name_end(self.text(), start as int),
            ensures
                self.wf(),
                self.text() == old(self).text(),
                start <= self.position,
                self.pos() == attr_name_end(self.text(), start as int),
            decreases self.len - self.position,
        {
            match self.peek(0) {
                Some(c) => {
                    if is_attr_name_stop_char(c) {
                        break;
                    }
                    self.advance();
                },
                None => break,
            }
        }
        if self.position == start {
            None
        } else {
            Some(self.slice(start, self.position))
        }
    }

    fn parse_doctype(&mut self) -> (r: Result<HtmlToken, TokenizeError>)
        requires
            old(self).wf(),
        ensures
            final(self).wf(),
            final(self).text() == old(self).text(),
            (outcome_view(r), final(self).pos()) == doctype_spec(old(self).text(), old(self).pos()),
    {
        let start = self.position;
        loop
            invariant
                self.wf(),
                self.text() == old(self).text(),
                start == old(self).pos(),
                start <= self.position,
                find_char(self.text(), self.pos(), '>') == find_char(self.text(), start as int, '>'),
            decreases self.len - self.position,
        {
            match self.peek(0) {
                Some(c) => {
                    if c == '>' {
                        let end = self.position;
                        self.advance();
                        return Ok(HtmlToken::Doctype(self.slice(start, end)));
                    }
                    self.advance();
                },
                None => return Err(TokenizeError::UnexpectedEOF),
            }
        }
    }

    fn parse_comment(&mut self) -> (r: Result<HtmlToken, TokenizeError>)
        requires
            old(self).wf(),
        ensures
            final(self).wf(),
            final(self).text() == old(self).text(),
            (outcome_view(r), final(self).pos()) == comment_spec(old(self).text(), old(self).pos()),
    {
        let start = self.position;
        let ghost s = self.text();
        let mut prev_dash_count: usize = 0;
        loop
            invariant
                self.wf(),
                self.text() == s,
                s == old(self).text(),
                start == old(self).pos(),
                start <= self.position,
                prev_dash_count <= self.position - start,
                comment_end(s, start as int, self.pos()) == comment_end(s, start as int, start as int),
                (prev_dash_count >= 1) == (self.pos() >= start + 1 && s[self.pos() - 1] == '-'),
                (prev_dash_count >= 2) == (self.pos() >= start + 2 && s[self.pos() - 1] == '-'
                    && s[self.pos() - 2] == '-'),
            decreases self.len - self.position,
        {
            match self.advance() {
                Some(c) => {
                    if prev_dash_count >= 2 && c == '>' {
                        let end = self.position - 1;
                        assert(closes_comment(s, start as int, end as int));
                        return Ok(HtmlToken::Comment(self.slice(start, end - 2)));
                    }
                    assert(!closes_comment(s, start as int, self.pos() - 1));
                    if c == '-' {
                        prev_dash_count = prev_dash_count + 1;
                    } else {
                        prev_dash_count = 0;
                    }
                },
                None => return Err(TokenizeError::MalformedComment),
            }
        }
    }

    fn parse_attribute_value(&mut self) -> (r: Result<String, TokenizeError>)
        requires
            old(self).wf(),
        ensures
            final(self).wf(),
            final(self).text() == old(self).text(),
            (value_view(r), final(self).pos()) == value_spec(old(self).text(), old(self).pos()),
    {
        let quote = match self.peek(0) {
            Some(c) => {
                if c == '"' || c == '\'' {
                    self.advance();
                    Some(c)
                } else {
                    None
                }
            },
            None => None,
        };
        let start = self.position;
        match quote {
            Some(q) => {
                loop
                    invariant
                        self.wf(),
                        self.text() == old(self).text(),
                        start == old(self).pos() + 1,
                        start <= self.position,
                        old(self).pos() < old(self).text().len(),
                        q == self.text()[old(self).pos()],
                        q == '"' || q == '\'',
                        find_char(self.text(), self.pos(), q) == find_char(
                            self.text(),
                            start as int,
                            q,
                        ),
                    decreases self.len - self.position,
                {
                    match self.advance() {
                        Some(c) => {
                            if c == q {
                                return Ok(self.slice(start, self.position - 1));
                            }
                        },
                        None => return Err(TokenizeError::InvalidAttribute),
                    }
                }
            },
            None => {
                loop
                    invariant
                        self.wf(),
                        self.text() == old(self).text(),
                        start == old(self).pos(),
                        start <= self.position,
                        name_end(self.text(), self.pos()) == name_end(self.text(), start as int),
                    ensures
                        self.wf(),
                        self.text() == old(self).text(),
                        start <= self.position,
                        self.pos() == name_end(self.text(), start as int),
                    decreases self.len - self.position,
                {
                    match self.peek(0) {
                        Some(c) => {
                            if is_name_stop_char(c) {
                                break;
                            }
                            self.advance();
                        },
                        None => break,
                    }
                }
                Ok(self.slice(start, self.position))
            },
        }
    }

    fn parse_attribute(&mut self) -> (r: Option<Result<(String, String), TokenizeError>>)
        requires
            old(self).wf(),
        ensures
            final(self).wf(),
            final(self).text() == old(self).text(),
            (attr_view(r), final(self).pos()) == attr_spec(old(self).text(), old(self).pos()),
    {
        let name = match self.parse_attribute_name() {
            Some(n) => n,
            None => return None,
        };
        self.skip_whitespace();
        match self.peek(0) {
            Some('=') => {
                self.advance();
                self.skip_whitespace();
                match self.parse_attribute_value() {
                    Ok(value) => Some(Ok((name, value))),
                    Err(e) => Some(Err(e)),
                }
            },
            _ => Some(Ok((name, String::new()))),
        }
    }

    fn parse_attributes(&mut self) -> (r: Result<Vec<(String, String)>, TokenizeError>)
        requires
            old(self).wf(),
        ensures
            final(self).wf(),
            final(self).text() == old(self).text(),
            (attrs_outcome_view(r), final(self).pos()) == attrs_spec(old(self).text(), old(self).pos()),
    {
        let ghost s = self.text();
        let mut attributes: Vec<(String, String)> = Vec::new();
        loop
            invariant
                self.wf(),
                self.text() == s,
                s == old(self).text(),
                old(self).pos() <= self.pos(),
                attrs_spec(s, old(self).pos()) == prepend_attrs(
                    attrs_view(attributes@),
                    attrs_spec(s, self.pos()),
                ),
            decreases self.len - self.position,
        {
            let ghost p = self.pos();
            self.skip_whitespace();
            proof {
                lemma_scan(s, p, StopSet::NonSpace);
                lemma_attr_spec(s, self.pos());
            }
            match self.peek(0) {
                Some('>') | Some('/') => {
                    assert(attrs_view(attributes@) + Seq::empty() =~= attrs_view(attributes@));
                    return Ok(attributes);
                },
                _ => {},
            }
            match self.parse_attribute() {
                Some(Ok(attr)) => {
                    let ghost before = attributes@;
                    proof {
                        lemma_prepend_attrs(
                            attrs_view(before),
                            seq![(attr.0@, attr.1@)],
                            attrs_spec(s, self.pos()),
                        );
                    }
                    attributes.push(attr);
                    assert(attrs_view(attributes@) =~= attrs_view(before) + seq![
                        (attr.0@, attr.1@),
                    ]);
                },
                Some(Err(e)) => return Err(e),
                None => {
                    assert(attrs_view(attributes@) + Seq::empty() =~= attrs_view(attributes@));
                    return Ok(attributes);
                },
            }
        }
    }

    fn parse_start_tag(&mut self) -> (r: Result<HtmlToken, TokenizeError>)
        requires
            old(self).wf(),
        ensures
            final(self).wf(),
            final(self).text() == old(self).text(),
            (outcome_view(r), final(self).pos()) == start_tag_spec(old(self).text(), old(self).pos()),
    {
        let name = match self.parse_tag_name() {
            Some(n) => n,
            None => return Err(TokenizeError::InvalidTag),
        };
        self.skip_whitespace();
        let attributes = match self.parse_attributes() {
            Ok(a) => a,
            Err(e) => return Err(e),
        };
        self.skip_whitespace();
        let self_closing = match self.peek(0) {
            Some('/') => {
                self.advance();
                match self.peek(0) {
                    Some('>') => {
                        self.advance();
                        true
                    },
                    _ => return Err(TokenizeError::InvalidTag),
                }
            },
            Some('>') => {
                self.advance();
                false
            },
            _ => return Err(TokenizeError::InvalidTag),
        };
        Ok(HtmlToken::StartTag { name, attributes, self_closing })
    }

    fn parse_end_tag(&mut self) -> (r: Result<HtmlToken, TokenizeError>)
        requires
            old(self).wf(),
        ensures
            final(self).wf(),
            final(self).text() == old(self).text(),
            (outcome_view(r), final(self).pos()) == end_tag_spec(old(self).text(), old(self).pos()),
    {
        let name = match self.parse_tag_name() {
            Some(n) => n,
            None => return Err(TokenizeError::InvalidTag),
        };
        self.skip_whitespace();
        match self.peek(0) {
            Some('>') => {
                self.advance();
                Ok(HtmlToken::EndTag { name })
            },
            _ => Err(TokenizeError::InvalidTag),
        }
    }

    fn parse_special_tag(&mut self) -> (r: Result<HtmlToken, TokenizeError>)
        requires
            old(self).wf(),
        ensures
            final(self).wf(),
            final(self).text() == old(self).text(),
            (outcome_view(r), final(self).pos()) == special_spec(old(self).text(), old(self).pos()),
    {
        match self.peek(0) {
            Some('-') => match self.peek(1) {
                Some('-') => {
                    self.advance_n(2);
                    self.parse_comment()
                },
                _ => Err(TokenizeError::MalformedComment),
            },
            _ => self.parse_doctype(),
        }
    }

    fn parse_tag(&mut self) -> (r: Result<HtmlToken, TokenizeError>)
        requires
            old(self).wf(),
        ensures
            final(self).wf(),
            final(self).text() == old(self).text(),
            (outcome_view(r), final(self).pos()) == tag_spec(old(self).text(), old(self).pos()),
    {
        match self.peek(0) {
            Some('!') => {
                self.advance();
                self.parse_special_tag()
            },
            Some('/') => {
                self.advance();
                self.parse_end_tag()
            },
            _ => self.parse_start_tag(),
        }
    }

    /// A text run from the current position, which holds a character other
    /// than `<`.
    fn parse_text(&mut self) -> (r: Option<Result<HtmlToken, TokenizeError>>)
        requires
            old(self).wf(),
            old(self).pos() < old(self).text().len(),
            old(self).text()[old(self).pos()] != '<',
        ensures
            final(self).wf(),
            final(self).text() == old(self).text(),
            final(self).pos() == text_end(old(self).text(), old(self).pos()),
            pull_view(r) == Some(
                Ok::<TokenView, TokenizeError>(
                    TokenView::Text(old(self).text().subrange(old(self).pos(), final(self).pos())),
                ),
            ),
        decreases old(self).text().len() - old(self).pos(), 0int,
    {
        let start = self.position;
        loop
            invariant
                self.wf(),
                self.text() == old(self).text(),
                start == old(self).pos(),
                start <= self.position,
                text_end(self.text(), self.pos()) == text_end(self.text(), start as int),
            ensures
                self.wf(),
                self.text() == old(self).text(),
                start <= self.position,
                self.pos() == text_end(self.text(), start as int),
            decreases self.len - self.position,
        {
            match self.peek(0) {
                Some(c) => {
                    if c == '<' {
                        break;
                    }
                    self.advance();
                },
                None => break,
            }
        }
        proof {
            lemma_find_char(self.text(), start + 1, '<');
        }
        if self.position == start {
            // unreachable: the first character is not `<`
            self.next_token()
        } else {
            Some(Ok(HtmlToken::Text(self.slice(start, self.position))))
        }
    }

    /// A sequence adapter over the same text, starting from its beginning
    /// whatever this cursor has consumed.
    pub fn iter(&self) -> (r: HtmlTokenizerIter<'a>)
        requires
            self.wf(),
        ensures
            r.cursor().wf(),
            r.cursor().text() == self.text(),
            r.cursor().pos() == 0,
    {
        HtmlTokenizerIter { tokenizer: HtmlTokenizer { input: self.input, len: self.len, position: 0 } }
    }

    /// Skips whitespace, then reads one token; `None` at the end of the input.
    pub fn next_token(&mut self) -> (r: Option<Result<HtmlToken, TokenizeError>>)
        requires
            old(self).wf(),
        ensures
            final(self).wf(),
            final(self).text() == old(self).text(),
            (pull_view(r), final(self).pos()) == next_spec(old(self).text(), old(self).pos()),
            old(self).pos() <= final(self).pos(),
            r is Some ==> old(self).pos() < final(self).pos(),
        decreases old(self).text().len() - old(self).pos(), 1int,
    {
        proof {
            lemma_next_spec(self.text(), self.pos());
        }
        self.skip_whitespace();
        proof {
            lemma_scan(self.text(), old(self).pos(), StopSet::NonSpace);
        }
        if self.is_eof() {
            return None;
        }
        match self.peek(0) {
            Some('<') => {
                self.advance();
                Some(self.parse_tag())
            },
            _ => self.parse_text(),
        }
    }
}

/// A restartable sequence of tokenization results over one text, backed by a
/// cursor of its own.
pub struct HtmlTokenizerIter<'a> {
    tokenizer: HtmlTokenizer<'a>,
}

impl<'a> HtmlTokenizerIter<'a> {
    /// The cursor that the sequence pulls from.
    pub closed spec fn cursor(&self) -> HtmlTokenizer<'a> {
        self.tokenizer
    }

    pub fn new(input: &'a str) -> (r: Self)
        ensures
            r.cursor().wf(),
            r.cursor().text() == input@,
            r.cursor().pos() == 0,
    {
        HtmlTokenizerIter { tokenizer: HtmlTokenizer::new(input) }
    }

    /// The next result of the sequence; `None` once the input is exhausted.
    pub fn next(&mut self) -> (r: Option<Result<HtmlToken, TokenizeError>>)
        requires
            old(self).cursor().wf(),
        ensures
            final(self).cursor().wf(),
            final(self).cursor().text() == old(self).cursor().text(),
            (pull_view(r), final(self).cursor().pos()) == next_spec(
                old(self).cursor().text(),
                old(self).cursor().pos(),
            ),
            old(self).cursor().pos() <= final(self).cursor().pos(),
    {
        self.tokenizer.next_token()
    }

    /// Pulls every remaining result, in order.
    pub fn to_vec(self) -> (r: Vec<Result<HtmlToken, TokenizeError>>)
        requires
            self.cursor().wf(),
        ensures
            results_view(r@) == token_seq(self.cursor().text(), self.cursor().pos()),
    {
        let ghost s = self.cursor().text();
        let ghost start = self.cursor().pos();
        let mut it = self;
        let mut out: Vec<Result<HtmlToken, TokenizeError>> = Vec::new();
        loop
            invariant
                s == self.cursor().text(),
                start == self.cursor().pos(),
                it.cursor().wf(),
                it.cursor().text() == s,
                0 <= it.cursor().pos() <= s.len(),
                token_seq(s, start) == results_view(out@) + token_seq(s, it.cursor().pos()),
            decreases s.len() - it.cursor().pos(),
        {
            let ghost p = it.cursor().pos();
            proof {
                lemma_next_spec(s, p);
            }
            match it.next() {
                Some(x) => {
                    let ghost before = out@;
                    out.push(x);
                    assert(results_view(out@) =~= results_view(before) + seq![outcome_view(x)]);
                    assert(results_view(before) + token_seq(s, p) =~= results_view(out@)
                        + token_seq(s, it.cursor().pos()));
                },
                None => {
                    assert(results_view(out@) + token_seq(s, p) =~= results_view(out@));
                    return out;
                },
            }
        }
    }
}

/// Running the sequence adapter again over the same text gives the same
/// results: two adapters that start at the beginning of equal texts, as
/// `iter` and `HtmlTokenizerIter::new` make them, collect equal sequences.
pub proof fn lemma_sequence_restarts(a: HtmlTokenizerIter, b: HtmlTokenizerIter)
    requires
        a.cursor().wf(),
        b.cursor().wf(),
        a.cursor().text() == b.cursor().text(),
        a.cursor().pos() == 0,
        b.cursor().pos() == 0,
    ensures
        token_seq(a.cursor().text(), a.cursor().pos()) == token_seq(
            b.cursor().text(),
            b.cursor().pos(),
        ),
{
}

} // verus!
