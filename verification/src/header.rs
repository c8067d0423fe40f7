use vstd::prelude::*;

use crate::error::{custom_error, Error, ErrorKind, Key};
use crate::text::subvec;
use crate::tree::{extract_at_least, extract_exact, lemma_node_view, Node, NodeV, Rule};
use crate::emit::internal_at;

verus! {

/// The three strings a document's configuration block supplies.
#[derive(Debug)]
pub struct HeaderData {
    pub title: Vec<char>,
    pub author: Vec<char>,
    pub date: Vec<char>,
}

/// Mathematical model of the extracted header.
pub ghost struct HeaderV {
    pub title: Seq<char>,
    pub author: Seq<char>,
    pub date: Seq<char>,
}

impl View for HeaderData {
    type V = HeaderV;

    open spec fn view(&self) -> HeaderV {
        HeaderV { title: self.title@, author: self.author@, date: self.date@ }
    }
}

/// Whitespace, as `char::is_whitespace` defines it: the Unicode
/// characters with the White_Space property.
pub open spec fn is_space(c: char) -> bool {
    ||| c == ' '
    ||| ('\u{9}' <= c && c <= '\u{D}')
    ||| c == '\u{85}'
    ||| c == '\u{A0}'
    ||| c == '\u{1680}'
    ||| ('\u{2000}' <= c && c <= '\u{200A}')
    ||| c == '\u{2028}'
    ||| c == '\u{2029}'
    ||| c == '\u{202F}'
    ||| c == '\u{205F}'
    ||| c == '\u{3000}'
}

/// Whether `c` is whitespace, by the same Unicode list.
pub fn is_space_char(c: char) -> (b: bool)
    ensures
        b == is_space(c),
{
    c == ' ' || (c >= '\u{9}' && c <= '\u{D}') || c == '\u{85}' || c == '\u{A0}' || c
        == '\u{1680}' || (c >= '\u{2000}' && c <= '\u{200A}') || c == '\u{2028}' || c
        == '\u{2029}' || c == '\u{202F}' || c == '\u{205F}' || c == '\u{3000}'
}

/// `s` without leading whitespace.
pub open spec fn trim_front(s: Seq<char>) -> Seq<char>
    decreases s.len(),
{
    if s.len() > 0 && is_space(s[0]) {
        trim_front(s.drop_first())
    } else {
        s
    }
}

/// `s` without trailing whitespace.
pub open spec fn trim_back(s: Seq<char>) -> Seq<char>
    decreases s.len(),
{
    if s.len() > 0 && is_space(s.last()) {
        trim_back(s.drop_last())
    } else {
        s
    }
}

/// `s` without surrounding whitespace.
pub open spec fn trim_spec(s: Seq<char>) -> Seq<char> {
    trim_back(trim_front(s))
}

/// Dropping a fully-blank prefix does not change `trim_front`.
proof fn lemma_trim_front_skip(s: Seq<char>, k: int)
    requires
        0 <= k <= s.len(),
        forall|j: int| 0 <= j < k ==> is_space(#[trigger] s[j]),
    ensures
        trim_front(s) == trim_front(s.subrange(k, s.len() as int)),
    decreases k,
{
    if k == 0 {
        assert(s.subrange(0, s.len() as int) =~= s);
    } else {
        assert(s.drop_first() =~= s.subrange(1, s.len() as int));
        lemma_trim_front_skip(s.drop_first(), k - 1);
        assert(s.drop_first().subrange(k - 1, s.drop_first().len() as int) =~= s.subrange(
            k,
            s.len() as int,
        ));
    }
}

/// Dropping a fully-blank suffix does not change `trim_back`.
proof fn lemma_trim_back_skip(s: Seq<char>, k: int)
    requires
        0 <= k <= s.len(),
        forall|j: int| k <= j < s.len() ==> is_space(#[trigger] s[j]),
    ensures
        trim_back(s) == trim_back(s.subrange(0, k)),
    decreases s.len() - k,
{
    if k == s.len() {
        assert(s.subrange(0, k) =~= s);
    } else {
        assert(s.drop_last() =~= s.subrange(0, s.len() - 1));
        lemma_trim_back_skip(s.drop_last(), k);
        assert(s.drop_last().subrange(0, k) =~= s.subrange(0, k));
    }
}

/// `t` without surrounding whitespace, as a fresh vector.
#[verifier::loop_isolation(false)]
pub fn trim_vec(t: &Vec<char>) -> (r: Vec<char>)
    ensures
        r@ == trim_spec(t@),
{
    let ghost s = t@;
    let mut lo: usize = 0;
    while lo < t.len() && is_space_char(t[lo])
        invariant
            lo <= s.len(),
            forall|j: int| 0 <= j < lo ==> is_space(#[trigger] s[j]),
        decreases s.len() - lo,
    {
        lo = lo + 1;
    }
    let mut hi: usize = t.len();
    while hi > lo && is_space_char(t[hi - 1])
        invariant
            lo <= hi <= s.len(),
            forall|j: int| hi <= j < s.len() ==> is_space(#[trigger] s[j]),
        decreases hi,
    {
        hi = hi - 1;
    }
    let r = subvec(t, lo, hi);
    proof {
        let u = s.subrange(lo as int, s.len() as int);
        lemma_trim_front_skip(s, lo as int);
        assert(trim_front(u) == u);
        lemma_trim_back_skip(u, hi - lo);
        assert(u.subrange(0, hi - lo) =~= s.subrange(lo as int, hi as int));
        assert(trim_back(u.subrange(0, hi - lo)) == u.subrange(0, hi - lo));
    }
    r
}

/// Fold the `header_line` nodes `s[i..]` over the three optional
/// values gathered so far.
pub open spec fn header_lines_spec(
    s: Seq<NodeV>,
    i: int,
    title: Option<Seq<char>>,
    date: Option<Seq<char>>,
    author: Option<Seq<char>>,
) -> Result<(Option<Seq<char>>, Option<Seq<char>>, Option<Seq<char>>), Error>
    decreases s.len() - i,
{
    if i < 0 || i >= s.len() {
        Ok((title, date, author))
    } else {
        let line = s[i];
        if line.kind != Rule::HeaderLine {
            Err(internal_at(line))
        } else if line.children.len() < 2 {
            Err(
                Error {
                    kind: ErrorKind::Arity { rule: line.kind, expected: 2, got: line.children.len() as usize },
                    start: line.start as usize,
                    end: line.end as usize,
                },
            )
        } else if line.children.len() > 2 {
            Err(
                Error {
                    kind: ErrorKind::ExcessArity { rule: line.kind, expected: 2, got: line.children.len() as usize },
                    start: line.start as usize,
                    end: line.end as usize,
                },
            )
        } else {
            let key = line.children[0];
            let value = line.children[1];
            if key.text == "title"@ {
                if title is Some {
                    Err(dup_at(key, Key::Title))
                } else {
                    header_lines_spec(s, i + 1, Some(trim_spec(value.text)), date, author)
                }
            } else if key.text == "date"@ {
                if date is Some {
                    Err(dup_at(key, Key::Date))
                } else {
                    header_lines_spec(s, i + 1, title, Some(trim_spec(value.text)), author)
                }
            } else if key.text == "author"@ {
                if author is Some {
                    Err(dup_at(key, Key::Author))
                } else {
                    header_lines_spec(s, i + 1, title, date, Some(trim_spec(value.text)))
                }
            } else {
                Err(
                    Error {
                        kind: ErrorKind::InvalidKey,
                        start: key.start as usize,
                        end: key.end as usize,
                    },
                )
            }
        }
    }
}

/// A duplicate-key error at `key`'s span, naming the key.
pub open spec fn dup_at(key: NodeV, which: Key) -> Error {
    Error {
        kind: ErrorKind::DuplicateKey { key: which },
        start: key.start as usize,
        end: key.end as usize,
    }
}

/// What validating and extracting the configuration block yields:
/// the three values, or the first error.
pub open spec fn header_spec(n: NodeV) -> Result<HeaderV, Error> {
    if n.kind != Rule::Header {
        Err(internal_at(n))
    } else if n.children.len() < 1 {
        Err(
            Error {
                kind: ErrorKind::Arity { rule: n.kind, expected: 1, got: 0 },
                start: n.start as usize,
                end: n.end as usize,
            },
        )
    } else {
        let label = n.children[0];
        if label.children.len() < 1 {
            Err(
                Error {
                    kind: ErrorKind::Arity { rule: label.kind, expected: 1, got: label.children.len() as usize },
                    start: label.start as usize,
                    end: label.end as usize,
                },
            )
        } else if label.children.len() > 1 {
            Err(
                Error {
                    kind: ErrorKind::ExcessArity { rule: label.kind, expected: 1, got: label.children.len() as usize },
                    start: label.start as usize,
                    end: label.end as usize,
                },
            )
        } else {
            let token = label.children[0];
            if token.text != "config"@ {
                Err(
                    Error {
                        kind: ErrorKind::BadHeaderLabel,
                        start: token.start as usize,
                        end: token.end as usize,
                    },
                )
            } else {
                match header_lines_spec(n.children, 1, None, None, None) {
                    Err(e) => Err(e),
                    Ok((title, date, author)) => {
                        if title is None {
                            Err(missing_at(n, Key::Title))
                        } else if date is None {
                            Err(missing_at(n, Key::Date))
                        } else if author is None {
                            Err(missing_at(n, Key::Author))
                        } else {
                            Ok(
                                HeaderV {
                                    title: title->0,
                                    author: author->0,
                                    date: date->0,
                                },
                            )
                        }
                    },
                }
            }
        }
    }
}

/// A missing-key error at the header's span.
pub open spec fn missing_at(n: NodeV, key: Key) -> Error {
    Error { kind: ErrorKind::MissingKey { key }, start: n.start as usize, end: n.end as usize }
}

/// The view of an optional text buffer.
pub open spec fn opt_view(o: Option<Vec<char>>) -> Option<Seq<char>> {
    match o {
        Some(v) => Some(v@),
        None => None,
    }
}

/// Validate the configuration block and extract its three values;
/// agrees with [`header_spec`] on values and errors alike.
#[verifier::loop_isolation(false)]
pub fn parse_header(header: &Node) -> (r: Result<HeaderData, Error>)
    ensures
        match r {
            Ok(h) => header_spec(header@) == Ok::<HeaderV, Error>(h@),
            Err(e) => header_spec(header@) == Err::<HeaderV, Error>(e),
        },
{
    proof {
        lemma_node_view(*header);
    }
    if !matches!(header.kind, Rule::Header) {
        return Err(custom_error(ErrorKind::Internal, header.start, header.end));
    }
    match extract_at_least(header, 1) {
        Err(e) => {
            return Err(e);
        },
        Ok(()) => {},
    }
    let label = &header.children[0];
    proof {
        lemma_node_view(*label);
    }
    match extract_exact(label, 1) {
        Err(e) => {
            return Err(e);
        },
        Ok(()) => {},
    }
    let token = &label.children[0];
    proof {
        lemma_node_view(*token);
    }
    if !crate::text::text_is(&token.text, "config") {
        return Err(custom_error(ErrorKind::BadHeaderLabel, token.start, token.end));
    }
    let ghost s = header@.children;
    let mut title: Option<Vec<char>> = None;
    let mut date: Option<Vec<char>> = None;
    let mut author: Option<Vec<char>> = None;
    let mut i: usize = 1;
    while i < header.children.len()
        invariant
            1 <= i <= header.children@.len(),
            header_lines_spec(s, 1, None, None, None) == header_lines_spec(
                s,
                i as int,
                opt_view(title),
                opt_view(date),
                opt_view(author),
            ),
        decreases header.children@.len() - i,
    {
        let line = &header.children[i];
        proof {
            lemma_node_view(*line);
        }
        if !matches!(line.kind, Rule::HeaderLine) {
            return Err(custom_error(ErrorKind::Internal, line.start, line.end));
        }
        match extract_exact(line, 2) {
            Err(e) => {
                return Err(e);
            },
            Ok(()) => {},
        }
        let key = &line.children[0];
        let value = &line.children[1];
        proof {
            lemma_node_view(*key);
            lemma_node_view(*value);
        }
        if crate::text::text_is(&key.text, "title") {
            if title.is_some() {
                return Err(custom_error(
                    ErrorKind::DuplicateKey { key: Key::Title },
                    key.start,
                    key.end,
                ));
            }
            title = Some(trim_vec(&value.text));
        } else if crate::text::text_is(&key.text, "date") {
            if date.is_some() {
                return Err(custom_error(
                    ErrorKind::DuplicateKey { key: Key::Date },
                    key.start,
                    key.end,
                ));
            }
            date = Some(trim_vec(&value.text));
        } else if crate::text::text_is(&key.text, "author") {
            if author.is_some() {
                return Err(custom_error(
                    ErrorKind::DuplicateKey { key: Key::Author },
                    key.start,
                    key.end,
                ));
            }
            author = Some(trim_vec(&value.text));
        } else {
            return Err(custom_error(ErrorKind::InvalidKey, key.start, key.end));
        }
        i = i + 1;
    }
    match title {
        None => Err(custom_error(
            ErrorKind::MissingKey { key: Key::Title },
            header.start,
            header.end,
        )),
        Some(title) => match date {
            None => Err(custom_error(
                ErrorKind::MissingKey { key: Key::Date },
                header.start,
                header.end,
            )),
            Some(date) => match author {
                None => Err(custom_error(
                    ErrorKind::MissingKey { key: Key::Author },
                    header.start,
                    header.end,
                )),
                Some(author) => Ok(HeaderData { title, author, date }),
            },
        },
    }
}

} // verus!
