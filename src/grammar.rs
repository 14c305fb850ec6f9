//! The lexical rules of the tokenizer as mathematical functions over the
//! input's characters. Each scanning step maps a start position to a result
//! and the position where scanning stopped.
use vstd::prelude::*;
use crate::html_tokenizer::TokenizeError;

verus! {

/// Unicode `White_Space` code points.
pub open spec fn is_ws(c: char) -> bool {
    ('\u{9}' <= c && c <= '\u{d}') || c == ' ' || c == '\u{85}' || c == '\u{a0}' || c == '\u{1680}'
        || ('\u{2000}' <= c && c <= '\u{200a}') || c == '\u{2028}' || c == '\u{2029}'
        || c == '\u{202f}' || c == '\u{205f}' || c == '\u{3000}'
}

/// Characters that end a tag name or an unquoted attribute value.
pub open spec fn is_name_stop(c: char) -> bool {
    is_ws(c) || c == '>' || c == '/'
}

/// Characters that end an attribute name.
pub open spec fn is_attr_name_stop(c: char) -> bool {
    is_name_stop(c) || c == '='
}

/// A token with its text as character sequences.
pub ghost enum TokenView {
    Doctype(Seq<char>),
    StartTag { name: Seq<char>, attributes: Seq<(Seq<char>, Seq<char>)>, self_closing: bool },
    EndTag { name: Seq<char> },
    Text(Seq<char>),
    Comment(Seq<char>),
}

/// The sets of characters at which a scan stops.
pub ghost enum StopSet {
    NonSpace,
    NameEnd,
    AttrNameEnd,
    Char(char),
}

pub open spec fn stops_at(k: StopSet, c: char) -> bool {
    match k {
        StopSet::NonSpace => !is_ws(c),
        StopSet::NameEnd => is_name_stop(c),
        StopSet::AttrNameEnd => is_attr_name_stop(c),
        StopSet::Char(x) => c == x,
    }
}

/// The first position at or after `p` whose character is in `stop`, or the
/// end of `s` when there is none.
pub open spec fn scan(s: Seq<char>, p: int, stop: StopSet) -> int
    decreases s.len() - p,
{
    if 0 <= p < s.len() && !stops_at(stop, s[p]) {
        scan(s, p + 1, stop)
    } else {
        p
    }
}

/// Where a run of whitespace starting at `p` ends.
pub open spec fn skip_ws(s: Seq<char>, p: int) -> int {
    scan(s, p, StopSet::NonSpace)
}

/// Where a tag name (or an unquoted value) starting at `p` ends.
pub open spec fn name_end(s: Seq<char>, p: int) -> int {
    scan(s, p, StopSet::NameEnd)
}

/// Where an attribute name starting at `p` ends.
pub open spec fn attr_name_end(s: Seq<char>, p: int) -> int {
    scan(s, p, StopSet::AttrNameEnd)
}

/// Where a text run starting at `p` ends.
pub open spec fn text_end(s: Seq<char>, p: int) -> int {
    find_char(s, p, '<')
}

/// The first occurrence of `x` at or after `p`, or the end of `s`.
pub open spec fn find_char(s: Seq<char>, p: int, x: char) -> int {
    scan(s, p, StopSet::Char(x))
}

/// Whether the `>` at `i` closes a comment whose body starts at `start`: it
/// follows two dashes of the body.
pub open spec fn closes_comment(s: Seq<char>, start: int, i: int) -> bool {
    i >= start + 2 && s[i] == '>' && s[i - 1] == '-' && s[i - 2] == '-'
}

/// The first position at or after `p` that closes the comment begun at
/// `start`, or the end of `s`.
pub open spec fn comment_end(s: Seq<char>, start: int, p: int) -> int
    decreases s.len() - p,
{
    if 0 <= p < s.len() && !closes_comment(s, start, p) {
        comment_end(s, start, p + 1)
    } else {
        p
    }
}

/// The body of `<!...>` that is not a comment, read from `p`.
pub open spec fn doctype_spec(s: Seq<char>, p: int) -> (Result<TokenView, TokenizeError>, int) {
    let e = find_char(s, p, '>');
    if e < s.len() {
        (Ok(TokenView::Doctype(s.subrange(p, e))), e + 1)
    } else {
        (Err(TokenizeError::UnexpectedEOF), e)
    }
}

/// A comment whose body starts at `p`, just after `<!--`.
pub open spec fn comment_spec(s: Seq<char>, p: int) -> (Result<TokenView, TokenizeError>, int) {
    let e = comment_end(s, p, p);
    if e < s.len() {
        (Ok(TokenView::Comment(s.subrange(p, e - 2))), e + 1)
    } else {
        (Err(TokenizeError::MalformedComment), e)
    }
}

/// What follows `<!`, read from `p`.
pub open spec fn special_spec(s: Seq<char>, p: int) -> (Result<TokenView, TokenizeError>, int) {
    if p < s.len() && s[p] == '-' {
        if p + 1 < s.len() && s[p + 1] == '-' {
            comment_spec(s, p + 2)
        } else {
            (Err(TokenizeError::MalformedComment), p)
        }
    } else {
        doctype_spec(s, p)
    }
}

/// An attribute value, quoted or bare, read from `p`.
pub open spec fn value_spec(s: Seq<char>, p: int) -> (Result<Seq<char>, TokenizeError>, int) {
    if p < s.len() && (s[p] == '"' || s[p] == '\'') {
        let e = find_char(s, p + 1, s[p]);
        if e < s.len() {
            (Ok(s.subrange(p + 1, e)), e + 1)
        } else {
            (Err(TokenizeError::InvalidAttribute), e)
        }
    } else {
        let e = name_end(s, p);
        (Ok(s.subrange(p, e)), e)
    }
}

/// One attribute read from `p`; `None` where no name can be read there.
pub open spec fn attr_spec(s: Seq<char>, p: int) -> (
    Option<Result<(Seq<char>, Seq<char>), TokenizeError>>,
    int,
) {
    let n = attr_name_end(s, p);
    if n == p {
        (None, p)
    } else {
        let name = s.subrange(p, n);
        let r = skip_ws(s, n);
        if r < s.len() && s[r] == '=' {
            let v = value_spec(s, skip_ws(s, r + 1));
            match v.0 {
                Ok(value) => (Some(Ok((name, value))), v.1),
                Err(e) => (Some(Err(e)), v.1),
            }
        } else {
            (Some(Ok((name, Seq::empty()))), r)
        }
    }
}

/// Puts `a` in front of a successful attribute list.
pub open spec fn prepend_attrs(
    a: Seq<(Seq<char>, Seq<char>)>,
    r: (Result<Seq<(Seq<char>, Seq<char>)>, TokenizeError>, int),
) -> (Result<Seq<(Seq<char>, Seq<char>)>, TokenizeError>, int) {
    match r.0 {
        Ok(xs) => (Ok(a + xs), r.1),
        Err(e) => (Err(e), r.1),
    }
}

/// The attribute list of a start tag, read from `p` up to `>` or `/`.
pub open spec fn attrs_spec(s: Seq<char>, p: int) -> (
    Result<Seq<(Seq<char>, Seq<char>)>, TokenizeError>,
    int,
)
    decreases s.len() - p,
{
    let q = skip_ws(s, p);
    if q < s.len() && (s[q] == '>' || s[q] == '/') {
        (Ok(Seq::empty()), q)
    } else {
        let a = attr_spec(s, q);
        match a.0 {
            None => (Ok(Seq::empty()), a.1),
            Some(Err(e)) => (Err(e), a.1),
            Some(Ok(x)) => {
                // an attribute always consumes input (see lemma_attr_spec)
                if p < a.1 <= s.len() {
                    prepend_attrs(seq![x], attrs_spec(s, a.1))
                } else {
                    (Ok(seq![x]), a.1)
                }
            },
        }
    }
}

/// A start tag whose name starts at `p`, just after `<`.
pub open spec fn start_tag_spec(s: Seq<char>, p: int) -> (Result<TokenView, TokenizeError>, int) {
    let n = name_end(s, p);
    if n == p {
        (Err(TokenizeError::InvalidTag), p)
    } else {
        let a = attrs_spec(s, skip_ws(s, n));
        match a.0 {
            Err(e) => (Err(e), a.1),
            Ok(attributes) => {
                let name = s.subrange(p, n);
                let t = skip_ws(s, a.1);
                if t < s.len() && s[t] == '/' {
                    if t + 1 < s.len() && s[t + 1] == '>' {
                        (Ok(TokenView::StartTag { name, attributes, self_closing: true }), t + 2)
                    } else {
                        (Err(TokenizeError::InvalidTag), t + 1)
                    }
                } else if t < s.len() && s[t] == '>' {
                    (Ok(TokenView::StartTag { name, attributes, self_closing: false }), t + 1)
                } else {
                    (Err(TokenizeError::InvalidTag), t)
                }
            },
        }
    }
}

/// An end tag whose name starts at `p`, just after `</`.
pub open spec fn end_tag_spec(s: Seq<char>, p: int) -> (Result<TokenView, TokenizeError>, int) {
    let n = name_end(s, p);
    if n == p {
        (Err(TokenizeError::InvalidTag), p)
    } else {
        let r = skip_ws(s, n);
        if r < s.len() && s[r] == '>' {
            (Ok(TokenView::EndTag { name: s.subrange(p, n) }), r + 1)
        } else {
            (Err(TokenizeError::InvalidTag), r)
        }
    }
}

/// Whatever follows a `<`, read from `p`.
pub open spec fn tag_spec(s: Seq<char>, p: int) -> (Result<TokenView, TokenizeError>, int) {
    if p < s.len() && s[p] == '!' {
        special_spec(s, p + 1)
    } else if p < s.len() && s[p] == '/' {
        end_tag_spec(s, p + 1)
    } else {
        start_tag_spec(s, p)
    }
}

/// The next token from `p`, `None` at the end of the input, with the position
/// after it.
pub open spec fn next_spec(s: Seq<char>, p: int) -> (Option<Result<TokenView, TokenizeError>>, int) {
    let q = skip_ws(s, p);
    if q >= s.len() {
        (None, q)
    } else if s[q] == '<' {
        let t = tag_spec(s, q + 1);
        (Some(t.0), t.1)
    } else {
        let e = text_end(s, q);
        (Some(Ok(TokenView::Text(s.subrange(q, e)))), e)
    }
}

/// Every result pulled from `p` until the end of the input.
pub open spec fn token_seq(s: Seq<char>, p: int) -> Seq<Result<TokenView, TokenizeError>>
    decreases s.len() - p,
{
    let n = next_spec(s, p);
    match n.0 {
        None => Seq::empty(),
        Some(r) => {
            // each pull consumes input (see lemma_next_spec)
            if p < n.1 <= s.len() {
                seq![r] + token_seq(s, n.1)
            } else {
                seq![r]
            }
        },
    }
}

pub proof fn lemma_prepend_attrs(
    a: Seq<(Seq<char>, Seq<char>)>,
    b: Seq<(Seq<char>, Seq<char>)>,
    r: (Result<Seq<(Seq<char>, Seq<char>)>, TokenizeError>, int),
)
    ensures
        prepend_attrs(a, prepend_attrs(b, r)) == prepend_attrs(a + b, r),
{
    if let Ok(xs) = r.0 {
        assert(a + (b + xs) =~= (a + b) + xs);
    }
}

pub proof fn lemma_scan(s: Seq<char>, p: int, stop: StopSet)
    requires
        0 <= p <= s.len(),
    ensures
        p <= scan(s, p, stop) <= s.len(),
        scan(s, p, stop) == s.len() || stops_at(stop, s[scan(s, p, stop)]),
        forall|i: int| p <= i < scan(s, p, stop) ==> !stops_at(stop, #[trigger] s[i]),
    decreases s.len() - p,
{
    if p < s.len() && !stops_at(stop, s[p]) {
        lemma_scan(s, p + 1, stop);
    }
}

pub proof fn lemma_find_char(s: Seq<char>, p: int, x: char)
    requires
        0 <= p <= s.len(),
    ensures
        p <= find_char(s, p, x) <= s.len(),
        find_char(s, p, x) < s.len() ==> s[find_char(s, p, x)] == x,
        forall|i: int| p <= i < find_char(s, p, x) ==> #[trigger] s[i] != x,
{
    lemma_scan(s, p, StopSet::Char(x));
}

pub proof fn lemma_comment_end(s: Seq<char>, start: int, p: int)
    requires
        0 <= p <= s.len(),
    ensures
        p <= comment_end(s, start, p) <= s.len(),
        comment_end(s, start, p) < s.len() ==> closes_comment(s, start, comment_end(s, start, p)),
    decreases s.len() - p,
{
    if p < s.len() && !closes_comment(s, start, p) {
        lemma_comment_end(s, start, p + 1);
    }
}

pub proof fn lemma_value_spec(s: Seq<char>, p: int)
    requires
        0 <= p <= s.len(),
    ensures
        p <= value_spec(s, p).1 <= s.len(),
{
    if p < s.len() && (s[p] == '"' || s[p] == '\'') {
        lemma_find_char(s, p + 1, s[p]);
    } else {
        lemma_scan(s, p, StopSet::NameEnd);
    }
}

pub proof fn lemma_attr_spec(s: Seq<char>, p: int)
    requires
        0 <= p <= s.len(),
    ensures
        p <= attr_spec(s, p).1 <= s.len(),
        attr_spec(s, p).0 is Some ==> p < attr_spec(s, p).1,
{
    let n = attr_name_end(s, p);
    lemma_scan(s, p, StopSet::AttrNameEnd);
    if n != p {
        lemma_scan(s, n, StopSet::NonSpace);
        let r = skip_ws(s, n);
        if r < s.len() && s[r] == '=' {
            lemma_scan(s, r + 1, StopSet::NonSpace);
            lemma_value_spec(s, skip_ws(s, r + 1));
        }
    }
}

pub proof fn lemma_attrs_spec(s: Seq<char>, p: int)
    requires
        0 <= p <= s.len(),
    ensures
        p <= attrs_spec(s, p).1 <= s.len(),
    decreases s.len() - p,
{
    let q = skip_ws(s, p);
    lemma_scan(s, p, StopSet::NonSpace);
    if !(q < s.len() && (s[q] == '>' || s[q] == '/')) {
        lemma_attr_spec(s, q);
        let a = attr_spec(s, q);
        if a.0 is Some && a.0->0 is Ok {
            lemma_attrs_spec(s, a.1);
        }
    }
}

pub proof fn lemma_tag_spec(s: Seq<char>, p: int)
    requires
        0 <= p <= s.len(),
    ensures
        p <= tag_spec(s, p).1 <= s.len(),
{
    if p < s.len() && s[p] == '!' {
        let q = p + 1;
        if q < s.len() && s[q] == '-' {
            if q + 1 < s.len() && s[q + 1] == '-' {
                lemma_comment_end(s, q + 2, q + 2);
            }
        } else {
            lemma_find_char(s, q, '>');
        }
    } else {
        let q = if p < s.len() && s[p] == '/' { p + 1 } else { p };
        let n = name_end(s, q);
        lemma_scan(s, q, StopSet::NameEnd);
        lemma_scan(s, n, StopSet::NonSpace);
        if q == p {
            let a = attrs_spec(s, skip_ws(s, n));
            lemma_attrs_spec(s, skip_ws(s, n));
            lemma_scan(s, a.1, StopSet::NonSpace);
        }
    }
}

/// Each pull that yields a result consumes input, and none moves past the end.
pub proof fn lemma_next_spec(s: Seq<char>, p: int)
    requires
        0 <= p <= s.len(),
    ensures
        p <= next_spec(s, p).1 <= s.len(),
        next_spec(s, p).0 is Some ==> p < next_spec(s, p).1,
        next_spec(s, p).0 matches Some(Ok(TokenView::Text(t))) ==> t.len() > 0,
{
    let q = skip_ws(s, p);
    lemma_scan(s, p, StopSet::NonSpace);
    if q < s.len() {
        if s[q] == '<' {
            lemma_tag_spec(s, q + 1);
        } else {
            lemma_find_char(s, q, '<');
        }
    }
}

/// A text made only of whitespace, the empty text included, yields no
/// token and no error.
pub proof fn lemma_whitespace_yields_nothing(s: Seq<char>)
    requires
        forall|i: int| 0 <= i < s.len() ==> is_ws(#[trigger] s[i]),
    ensures
        token_seq(s, 0) == Seq::<Result<TokenView, TokenizeError>>::empty(),
{
    lemma_scan(s, 0, StopSet::NonSpace);
}

} // verus!
