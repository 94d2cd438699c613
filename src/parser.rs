//! The document grammar: annotations, items, blobs, blocks and raw text,
//! stated as spec functions over the token sequence and implemented by a
//! recursive-descent parser proved to compute exactly those functions.
use vstd::prelude::*;
use std::collections::VecDeque;
use crate::token::{
    append_token_text, kind_of, lexes, lexes_at, step_at, token_text, Spanned, Token, TokenKind,
};
use crate::tree::{
    annotation_view, element_view, elements_view, entities_view, entity_view, push_element,
    push_entity, queue_view, top_view, Annotated, Annotation,
    AnnotationV, Atom, Blob, Block, BlockStyle, Delimiter, Element, ElementV, Entity, EntityV, Item, Raw,
    Top,
};

verus! {

broadcast use vstd::std_specs::vec::axiom_vec_index_decreases;

/// Deepest nesting of annotations and blocks that the parser accepts.
pub const MAX_DEPTH: usize = 200;

/// What would have been accepted where a parse failed.
#[derive(Clone, Copy, Debug, PartialEq, Eq, Structural)]
pub enum Expected {
    /// A token of this kind.
    Token(TokenKind),
    /// An atom, a nested `(` or `[`, or the group's closer.
    Element,
    /// The `(` or `[` that opens an item's payload.
    Payload,
    /// An atom (an item's name) or the `(` or `[` of an annotation after `@@`.
    NameOrPayload,
    /// Text, a sigil construct, or the enclosing terminator.
    Entity,
    /// A fence of exactly this many `@`.
    Fence(usize),
    /// The end of the input.
    End,
}

/// Why a parse failed. Spans are those of the tokens involved.
#[derive(Clone, Copy, Debug, PartialEq, Eq, Structural)]
#[allow(inconsistent_fields)]
pub enum ParseError {
    /// The token at `start..end` is not accepted here.
    Unexpected { start: usize, end: usize, found: TokenKind, expected: Expected },
    /// The input ended where more was needed.
    UnexpectedEnd { expected: Expected },
    /// The construct opened by the token at `start..end` is never closed: the
    /// input ended (`found` is `None`) or another closer came.
    Unclosed { start: usize, end: usize, found: Option<TokenKind>, expected: Expected },
    /// Annotations, the first at `start..end`, with nothing to attach to.
    Dangling { start: usize, end: usize },
    /// Nesting deeper than `MAX_DEPTH`, at the opener at `start..end`.
    TooDeep { start: usize, end: usize },
}

/// Tokens from `i` to the end.
pub open spec fn left(t: Seq<Spanned>, i: int) -> nat {
    if i < t.len() {
        (t.len() - i) as nat
    } else {
        0
    }
}

pub open spec fn kind(t: Seq<Spanned>, i: int) -> TokenKind {
    kind_of(t[i].token)
}

pub open spec fn is_opener(k: TokenKind) -> bool {
    k == TokenKind::ParenOpen || k == TokenKind::BracketOpen
}

pub open spec fn is_blank(k: TokenKind) -> bool {
    k == TokenKind::WhiteSpace || k == TokenKind::LineBreak
}

pub open spec fn closer_of(k: TokenKind) -> TokenKind {
    if k == TokenKind::ParenOpen {
        TokenKind::ParenClose
    } else {
        TokenKind::BracketClose
    }
}

pub open spec fn delimiter_of(k: TokenKind) -> Delimiter {
    if k == TokenKind::ParenOpen {
        Delimiter::Paren
    } else {
        Delimiter::Bracket
    }
}

pub open spec fn atom_text(t: Seq<Spanned>, i: int) -> Seq<char> {
    token_text(t[i].token)
}

/// The annotation whose opener is at `i`, with the number of tokens after the
/// opener that it spans (its closer included).
pub open spec fn annotation_at(t: Seq<Spanned>, i: int, depth: nat) -> Result<(AnnotationV, nat), ParseError>
    decreases left(t, i), 0nat,
{
    if i < 0 || i >= t.len() {
        Err(ParseError::UnexpectedEnd { expected: Expected::Payload })
    } else if depth >= MAX_DEPTH {
        Err(ParseError::TooDeep { start: t[i].start, end: t[i].end })
    } else {
        elements_from(t, i, i + 1, depth + 1, Seq::empty())
    }
}

/// The rest of the group opened at `open`, from `j` on, after the elements `acc`;
/// the count is of the tokens from `j` to the closer, inclusive.
pub open spec fn elements_from(
    t: Seq<Spanned>,
    open: int,
    j: int,
    depth: nat,
    acc: Seq<ElementV>,
) -> Result<(AnnotationV, nat), ParseError>
    decreases left(t, j), 1nat,
{
    if j < 0 || open < 0 || open >= t.len() {
        Err(ParseError::UnexpectedEnd { expected: Expected::Element })
    } else if j >= t.len() {
        Err(
            ParseError::Unclosed {
                start: t[open].start,
                end: t[open].end,
                found: None,
                expected: Expected::Token(closer_of(kind(t, open))),
            },
        )
    } else {
        let k = kind(t, j);
        if is_blank(k) {
            match elements_from(t, open, j + 1, depth, acc) {
                Ok((a, n)) => Ok((a, n + 1)),
                Err(e) => Err(e),
            }
        } else if k == TokenKind::Atom {
            match elements_from(t, open, j + 1, depth, acc.push(ElementV::Atom(atom_text(t, j)))) {
                Ok((a, n)) => Ok((a, n + 1)),
                Err(e) => Err(e),
            }
        } else if is_opener(k) {
            match annotation_at(t, j, depth) {
                Ok((inner, m)) => match elements_from(
                    t,
                    open,
                    j + 1 + m,
                    depth,
                    acc.push(ElementV::Annotation(inner)),
                ) {
                    Ok((a, n)) => Ok((a, n + 1 + m)),
                    Err(e) => Err(e),
                },
                Err(e) => Err(e),
            }
        } else if k == closer_of(kind(t, open)) {
            Ok((AnnotationV { delimiter: delimiter_of(kind(t, open)), elements: acc }, 1))
        } else if k == TokenKind::ParenClose || k == TokenKind::BracketClose {
            Err(
                ParseError::Unclosed {
                    start: t[open].start,
                    end: t[open].end,
                    found: Some(k),
                    expected: Expected::Token(closer_of(kind(t, open))),
                },
            )
        } else {
            Err(
                ParseError::Unexpected {
                    start: t[j].start,
                    end: t[j].end,
                    found: k,
                    expected: Expected::Element,
                },
            )
        }
    }
}

/// `r` is the executable counterpart of the spec outcome `s`.
pub open spec fn annotation_outcome(
    r: Result<(Annotation, usize), ParseError>,
    s: Result<(AnnotationV, nat), ParseError>,
) -> bool {
    match (r, s) {
        (Ok((a, n)), Ok((av, sn))) => annotation_view(a) == av && n == sn,
        (Err(e), Err(se)) => e == se,
        _ => false,
    }
}

/// Shifts the token count of a successful outcome by `k`.
pub open spec fn shifted<V>(r: Result<(V, nat), ParseError>, k: nat) -> Result<(V, nat), ParseError> {
    match r {
        Ok((v, n)) => Ok((v, n + k)),
        Err(e) => Err(e),
    }
}

/// Parses the annotation whose opener is the token at `i`.
fn annotation_from(t: &Vec<Spanned>, i: usize, depth: usize) -> (r: Result<(Annotation, usize), ParseError>)
    requires
        i < t.len(),
        is_opener(kind(t@, i as int)),
        depth <= MAX_DEPTH,
    ensures
        annotation_outcome(r, annotation_at(t@, i as int, depth as nat)),
        r matches Ok((_, n)) ==> 1 <= n < t.len() - i,
    decreases t.len() - i, 0nat,
{
    if depth >= MAX_DEPTH {
        return Err(ParseError::TooDeep { start: t[i].start, end: t[i].end });
    }
    let open_kind = t[i].token.kind();
    let delimiter = if open_kind == TokenKind::ParenOpen {
        Delimiter::Paren
    } else {
        Delimiter::Bracket
    };
    let closer = if open_kind == TokenKind::ParenOpen {
        TokenKind::ParenClose
    } else {
        TokenKind::BracketClose
    };
    let mut elements: Vec<Element> = Vec::new();
    let mut j: usize = i + 1;
    let ghost goal = elements_from(t@, i as int, i + 1, (depth + 1) as nat, Seq::empty());
    while j < t.len()
        invariant
            i < j <= t.len(),
            depth < MAX_DEPTH,
            open_kind == kind(t@, i as int),
            is_opener(open_kind),
            closer == closer_of(open_kind),
            delimiter == delimiter_of(open_kind),
            goal == elements_from(t@, i as int, i + 1, (depth + 1) as nat, Seq::empty()),
            goal == shifted(
                elements_from(
                    t@,
                    i as int,
                    j as int,
                    (depth + 1) as nat,
                    elements_view(elements, elements@.len()),
                ),
                (j - i - 1) as nat,
            ),
        decreases t.len() - j,
    {
        let k = t[j].token.kind();
        if k == TokenKind::WhiteSpace || k == TokenKind::LineBreak {
            j = j + 1;
        } else if k == TokenKind::Atom {
            let content = match &t[j].token {
                Token::Atom(s) => s.clone(),
                _ => String::new(),
            };
            push_element(&mut elements, Element::Atom(Atom { content }));
            j = j + 1;
        } else if k == TokenKind::ParenOpen || k == TokenKind::BracketOpen {
            match annotation_from(t, j, depth + 1) {
                Ok((inner, m)) => {
                    push_element(&mut elements, Element::Annotation(inner));
                    j = j + 1 + m;
                },
                Err(e) => {
                    return Err(e);
                },
            }
        } else if k == closer {
            let n = j - i;
            return Ok((Annotation { delimiter, elements }, n));
        } else if k == TokenKind::ParenClose || k == TokenKind::BracketClose {
            return Err(
                ParseError::Unclosed {
                    start: t[i].start,
                    end: t[i].end,
                    found: Some(k),
                    expected: Expected::Token(closer),
                },
            );
        } else {
            return Err(
                ParseError::Unexpected {
                    start: t[j].start,
                    end: t[j].end,
                    found: k,
                    expected: Expected::Element,
                },
            );
        }
    }
    Err(
        ParseError::Unclosed {
            start: t[i].start,
            end: t[i].end,
            found: None,
            expected: Expected::Token(closer),
        },
    )
}

/// The closer that ends a block's body, and the span of the token that opened it.
#[derive(Clone, Copy, Debug, PartialEq, Eq, Structural)]
pub struct Frame {
    pub close: TokenKind,
    pub start: usize,
    pub end: usize,
}

/// Tokens that make up prose.
pub open spec fn is_text(k: TokenKind) -> bool {
    k == TokenKind::Atom || k == TokenKind::WhiteSpace || k == TokenKind::LineBreak || k
        == TokenKind::Unknown || k == TokenKind::Hash
}

/// Of the run of text tokens from `j`, how many come up to its last non-blank one.
pub open spec fn raw_keep(t: Seq<Spanned>, j: nat) -> nat
    decreases left(t, j as int),
{
    if j < t.len() && is_text(kind(t, j as int)) {
        let r = raw_keep(t, j + 1);
        if r > 0 || !is_blank(kind(t, j as int)) {
            r + 1
        } else {
            0
        }
    } else {
        0
    }
}

/// The number of tokens of the raw text that starts at `j`: up to its last
/// non-blank token, and the line break right after it, if there is one.
pub open spec fn raw_len(t: Seq<Spanned>, j: nat) -> nat {
    let m = raw_keep(t, j);
    if j + m < t.len() && kind(t, (j + m) as int) == TokenKind::LineBreak {
        m + 1
    } else {
        m
    }
}

/// The number of tokens of the prose that starts with `@@name` at `j` when no
/// payload follows the name: the sigil, the name, the text tokens after it up
/// to the last non-blank one, and the line break right after that, if any.
pub open spec fn named_prose_len(t: Seq<Spanned>, j: nat) -> nat {
    let m = 2 + raw_keep(t, j + 2);
    if j + m < t.len() && kind(t, (j + m) as int) == TokenKind::LineBreak {
        m + 1
    } else {
        m
    }
}

/// The source text of the tokens `a..b`.
pub open spec fn texts(t: Seq<Spanned>, a: int, b: int) -> Seq<char>
    decreases b - a,
{
    if b <= a || a < 0 || b > t.len() {
        Seq::empty()
    } else {
        texts(t, a, b - 1) + token_text(t[b - 1].token)
    }
}

pub open spec fn fence_width(tok: Token) -> usize {
    match tok {
        Token::AtAtAt(n) => n,
        _ => 0,
    }
}

/// How far from `k` the first fence of exactly width `n` is.
pub open spec fn fence_dist(t: Seq<Spanned>, k: nat, n: usize) -> Option<nat>
    decreases left(t, k as int),
{
    if k >= t.len() {
        None
    } else if kind(t, k as int) == TokenKind::AtAtAt && fence_width(t[k as int].token) == n {
        Some(0)
    } else {
        match fence_dist(t, k + 1, n) {
            Some(d) => Some(d + 1),
            None => None,
        }
    }
}

/// The first position at or after `j` that does not hold a blank token.
pub open spec fn skip_blank(t: Seq<Spanned>, j: nat) -> nat
    decreases left(t, j as int),
{
    if j < t.len() && is_blank(kind(t, j as int)) {
        skip_blank(t, j + 1)
    } else {
        j
    }
}

/// An item, block or blob starts at `j`.
pub open spec fn starts_attachable(t: Seq<Spanned>, j: nat) -> bool {
    ||| j < t.len() && kind(t, j as int) == TokenKind::AtAtAt
    ||| j + 1 < t.len() && kind(t, j as int) == TokenKind::At && kind(t, (j + 1) as int)
        == TokenKind::Atom
    ||| j + 2 < t.len() && kind(t, j as int) == TokenKind::AtAt && kind(t, (j + 1) as int)
        == TokenKind::Atom && is_opener(kind(t, (j + 2) as int))
}

/// An in-flow annotation starts at `j`.
pub open spec fn starts_annotation(t: Seq<Spanned>, j: nat) -> bool {
    j + 1 < t.len() && kind(t, j as int) == TokenKind::AtAt && is_opener(kind(t, (j + 1) as int))
}

/// An annotation that ends just before `j` is queued for attachment: what
/// follows it, past blank tokens, is another annotation or an item, block or blob.
pub open spec fn queues_at(t: Seq<Spanned>, j: nat) -> bool {
    starts_attachable(t, skip_blank(t, j)) || starts_annotation(t, skip_blank(t, j))
}

pub open spec fn is_stray_closer(k: TokenKind) -> bool {
    k == TokenKind::ParenClose || k == TokenKind::BracketClose || k == TokenKind::BraceClose || k
        == TokenKind::AtEnd
}

/// The entities from `j` on, after the entities `acc`, with the annotations
/// `pend` queued (the first of them at `pend_at`), inside a body that `term`
/// closes (the whole input when `None`). The count is of the tokens from `j`
/// up to the end of the input, or to the closer, inclusive.
pub open spec fn entities_from(
    t: Seq<Spanned>,
    j: nat,
    depth: nat,
    term: Option<Frame>,
    acc: Seq<EntityV>,
    pend: Seq<AnnotationV>,
    pend_at: (usize, usize),
) -> Result<(Seq<EntityV>, nat), ParseError>
    decreases left(t, j as int),
{
    let dangling = ParseError::Dangling { start: pend_at.0, end: pend_at.1 };
    if j >= t.len() {
        match term {
            None => if pend.len() > 0 {
                Err(dangling)
            } else {
                Ok((acc, 0))
            },
            Some(f) => Err(
                ParseError::Unclosed {
                    start: f.start,
                    end: f.end,
                    found: None,
                    expected: Expected::Token(f.close),
                },
            ),
        }
    } else {
        let k = kind(t, j as int);
        let tj = t[j as int];
        if term is Some && k == term->0.close {
            if pend.len() > 0 {
                Err(dangling)
            } else {
                Ok((acc, 1))
            }
        } else if is_blank(k) {
            shifted(entities_from(t, j + 1, depth, term, acc, pend, pend_at), 1)
        } else if is_text(k) {
            if pend.len() > 0 {
                Err(dangling)
            } else {
                let m = raw_len(t, j);
                shifted(
                    entities_from(
                        t,
                        j + m,
                        depth,
                        term,
                        acc.push(EntityV::Raw(texts(t, j as int, (j + m) as int))),
                        pend,
                        pend_at,
                    ),
                    m,
                )
            }
        } else if k == TokenKind::AtAt {
            if j + 1 >= t.len() {
                Err(ParseError::UnexpectedEnd { expected: Expected::NameOrPayload })
            } else if is_opener(kind(t, (j + 1) as int)) {
                match annotation_at(t, (j + 1) as int, depth) {
                    Err(e) => Err(e),
                    Ok((a, m)) => {
                        let nx = j + 2 + m;
                        if queues_at(t, nx) {
                            let at = if pend.len() == 0 {
                                (tj.start, tj.end)
                            } else {
                                pend_at
                            };
                            shifted(entities_from(t, nx, depth, term, acc, pend.push(a), at), 2 + m)
                        } else if pend.len() > 0 {
                            Err(dangling)
                        } else {
                            shifted(
                                entities_from(
                                    t,
                                    nx,
                                    depth,
                                    term,
                                    acc.push(EntityV::IncontextAnnotation(a)),
                                    pend,
                                    pend_at,
                                ),
                                2 + m,
                            )
                        }
                    },
                }
            } else if kind(t, (j + 1) as int) == TokenKind::Atom {
                // `@@name` followed at once by `(` or `[` is an item. Followed
                // by anything else (`@@title Some words`), the sigil, the name
                // and the rest of the line are prose.
                if !(j + 2 < t.len() && is_opener(kind(t, (j + 2) as int))) {
                    if pend.len() > 0 {
                        Err(dangling)
                    } else {
                        let m = named_prose_len(t, j);
                        shifted(
                            entities_from(
                                t,
                                j + m,
                                depth,
                                term,
                                acc.push(EntityV::Raw(texts(t, j as int, (j + m) as int))),
                                pend,
                                pend_at,
                            ),
                            m,
                        )
                    }
                } else {
                    match annotation_at(t, (j + 2) as int, depth) {
                        Err(e) => Err(e),
                        Ok((a, m)) => shifted(
                            entities_from(
                                t,
                                j + 3 + m,
                                depth,
                                term,
                                acc.push(
                                    EntityV::Item {
                                        attached: pend,
                                        name: atom_text(t, (j + 1) as int),
                                        payload: a,
                                    },
                                ),
                                Seq::empty(),
                                pend_at,
                            ),
                            3 + m,
                        ),
                    }
                }
            } else {
                Err(
                    ParseError::Unexpected {
                        start: t[(j + 1) as int].start,
                        end: t[(j + 1) as int].end,
                        found: kind(t, (j + 1) as int),
                        expected: Expected::NameOrPayload,
                    },
                )
            }
        } else if k == TokenKind::At {
            if j + 1 >= t.len() {
                Err(ParseError::UnexpectedEnd { expected: Expected::Token(TokenKind::Atom) })
            } else if kind(t, (j + 1) as int) != TokenKind::Atom {
                Err(
                    ParseError::Unexpected {
                        start: t[(j + 1) as int].start,
                        end: t[(j + 1) as int].end,
                        found: kind(t, (j + 1) as int),
                        expected: Expected::Token(TokenKind::Atom),
                    },
                )
            } else if depth >= MAX_DEPTH {
                Err(ParseError::TooDeep { start: tj.start, end: tj.end })
            } else {
                let k2 = if j + 2 < t.len() {
                    kind(t, (j + 2) as int)
                } else {
                    TokenKind::At
                };
                let style = if k2 == TokenKind::ParenOpen {
                    BlockStyle::Delimited
                } else if k2 == TokenKind::BraceOpen {
                    BlockStyle::Braced
                } else {
                    BlockStyle::Incontext
                };
                let body_start: nat = if style == BlockStyle::Incontext {
                    j + 2
                } else {
                    j + 3
                };
                let frame = if style == BlockStyle::Delimited {
                    Frame { close: TokenKind::ParenClose, start: t[(j + 2) as int].start, end: t[(j + 2) as int].end }
                } else if style == BlockStyle::Braced {
                    Frame { close: TokenKind::BraceClose, start: t[(j + 2) as int].start, end: t[(j + 2) as int].end }
                } else {
                    Frame { close: TokenKind::AtEnd, start: tj.start, end: tj.end }
                };
                match entities_from(
                    t,
                    body_start,
                    depth + 1,
                    Some(frame),
                    Seq::empty(),
                    Seq::empty(),
                    (0, 0),
                ) {
                    Err(e) => Err(e),
                    Ok((body, m)) => shifted(
                        entities_from(
                            t,
                            body_start + m,
                            depth,
                            term,
                            acc.push(
                                EntityV::Block {
                                    attached: pend,
                                    style,
                                    name: atom_text(t, (j + 1) as int),
                                    body,
                                },
                            ),
                            Seq::empty(),
                            pend_at,
                        ),
                        (body_start - j) as nat + m,
                    ),
                }
            }
        } else if k == TokenKind::AtAtAt {
            let n = fence_width(tj.token);
            match fence_dist(t, j + 1, n) {
                None => Err(
                    ParseError::Unclosed {
                        start: tj.start,
                        end: tj.end,
                        found: None,
                        expected: Expected::Fence(n),
                    },
                ),
                Some(d) => shifted(
                    entities_from(
                        t,
                        j + 2 + d,
                        depth,
                        term,
                        acc.push(
                            EntityV::Blob { attached: pend, content: texts(t, (j + 1) as int, (j + 1 + d) as int) },
                        ),
                        Seq::empty(),
                        pend_at,
                    ),
                    2 + d,
                ),
            }
        } else if term is Some && is_stray_closer(k) {
            Err(
                ParseError::Unclosed {
                    start: term->0.start,
                    end: term->0.end,
                    found: Some(k),
                    expected: Expected::Token(term->0.close),
                },
            )
        } else {
            Err(
                ParseError::Unexpected {
                    start: tj.start,
                    end: tj.end,
                    found: k,
                    expected: Expected::Entity,
                },
            )
        }
    }
}

/// The document that the tokens `t` parse to.
pub open spec fn document(t: Seq<Spanned>) -> Result<Seq<EntityV>, ParseError> {
    match entities_from(t, 0, 0, None, Seq::empty(), Seq::empty(), (0, 0)) {
        Ok((es, _)) => Ok(es),
        Err(e) => Err(e),
    }
}

/// The annotation that the tokens `t` parse to, when they are exactly one.
pub open spec fn lone_annotation(t: Seq<Spanned>) -> Result<AnnotationV, ParseError> {
    if t.len() == 0 {
        Err(ParseError::UnexpectedEnd { expected: Expected::Payload })
    } else if !is_opener(kind(t, 0)) {
        Err(
            ParseError::Unexpected {
                start: t[0].start,
                end: t[0].end,
                found: kind(t, 0),
                expected: Expected::Payload,
            },
        )
    } else {
        match annotation_at(t, 0, 0) {
            Err(e) => Err(e),
            Ok((a, n)) => if n + 1 < t.len() {
                Err(
                    ParseError::Unexpected {
                        start: t[(n + 1) as int].start,
                        end: t[(n + 1) as int].end,
                        found: kind(t, (n + 1) as int),
                        expected: Expected::End,
                    },
                )
            } else {
                Ok(a)
            },
        }
    }
}

/// `r` is the executable counterpart of the spec outcome `s`.
pub open spec fn entities_outcome(
    r: Result<(Vec<Entity>, usize), ParseError>,
    s: Result<(Seq<EntityV>, nat), ParseError>,
) -> bool {
    match (r, s) {
        (Ok((v, n)), Ok((sv, sn))) => entities_view(v, v@.len()) == sv && n == sn,
        (Err(e), Err(se)) => e == se,
        _ => false,
    }
}

/// The source text of the tokens `a..b`.
fn texts_of(t: &Vec<Spanned>, a: usize, b: usize) -> (r: String)
    requires
        a <= b <= t.len(),
    ensures
        r@ == texts(t@, a as int, b as int),
{
    let mut out = String::new();
    let mut k: usize = a;
    while k < b
        invariant
            a <= k <= b <= t.len(),
            out@ == texts(t@, a as int, k as int),
        decreases b - k,
    {
        append_token_text(&mut out, &t[k].token);
        k = k + 1;
    }
    out
}

/// The number of tokens of the raw text that starts at `j`.
fn raw_len_of(t: &Vec<Spanned>, j: usize) -> (m: usize)
    requires
        j < t.len(),
        is_text(kind(t@, j as int)),
        !is_blank(kind(t@, j as int)),
    ensures
        m == raw_len(t@, j as nat),
        1 <= m <= t.len() - j,
{
    let mut last: usize = j + 1;
    let mut k: usize = j + 1;
    while k < t.len() && (t[k].token.kind() == TokenKind::Atom || t[k].token.kind()
        == TokenKind::WhiteSpace || t[k].token.kind() == TokenKind::LineBreak
        || t[k].token.kind() == TokenKind::Unknown || t[k].token.kind() == TokenKind::Hash)
        invariant
            j < last <= k <= t.len(),
            raw_keep(t@, j as nat) as int == if raw_keep(t@, k as nat) > 0 {
                (k - j) + raw_keep(t@, k as nat)
            } else {
                last - j
            },
        decreases t.len() - k,
    {
        let kk = t[k].token.kind();
        if kk != TokenKind::WhiteSpace && kk != TokenKind::LineBreak {
            last = k + 1;
        }
        k = k + 1;
    }
    if last < t.len() && t[last].token.kind() == TokenKind::LineBreak {
        last - j + 1
    } else {
        last - j
    }
}

/// Of the run of text tokens from `k`, how many come up to its last non-blank one.
fn keep_from(t: &Vec<Spanned>, k: usize) -> (m: usize)
    requires
        k <= t.len(),
    ensures
        m == raw_keep(t@, k as nat),
        k + m <= t.len(),
{
    let mut last: usize = k;
    let mut i: usize = k;
    while i < t.len() && (t[i].token.kind() == TokenKind::Atom || t[i].token.kind()
        == TokenKind::WhiteSpace || t[i].token.kind() == TokenKind::LineBreak
        || t[i].token.kind() == TokenKind::Unknown || t[i].token.kind() == TokenKind::Hash)
        invariant
            k <= last <= i <= t.len(),
            raw_keep(t@, k as nat) as int == if raw_keep(t@, i as nat) > 0 {
                (i - k) + raw_keep(t@, i as nat)
            } else {
                last - k
            },
        decreases t.len() - i,
    {
        let kk = t[i].token.kind();
        if kk != TokenKind::WhiteSpace && kk != TokenKind::LineBreak {
            last = i + 1;
        }
        i = i + 1;
    }
    last - k
}

/// The text and token count of the prose that starts with `@@name` at `j`.
fn named_prose(t: &Vec<Spanned>, j: usize) -> (r: (String, usize))
    requires
        j + 2 <= t.len(),
    ensures
        r.1 == named_prose_len(t@, j as nat),
        j + r.1 <= t.len(),
        r.0@ == texts(t@, j as int, j + r.1),
{
    let mut m = 2 + keep_from(t, j + 2);
    if j + m < t.len() && t[j + m].token.kind() == TokenKind::LineBreak {
        m = m + 1;
    }
    (texts_of(t, j, j + m), m)
}

/// How far from `k` the first fence of width `n` is.
fn fence_from(t: &Vec<Spanned>, k: usize, n: usize) -> (r: Option<usize>)
    requires
        k <= t.len(),
    ensures
        match r {
            Some(d) => fence_dist(t@, k as nat, n) == Some(d as nat) && k + d < t.len(),
            None => fence_dist(t@, k as nat, n) is None,
        },
{
    let mut i: usize = k;
    while i < t.len()
        invariant
            k <= i <= t.len(),
            fence_dist(t@, k as nat, n) == match fence_dist(t@, i as nat, n) {
                Some(d) => Some(d + (i - k) as nat),
                None => None::<nat>,
            },
        decreases t.len() - i,
    {
        match &t[i].token {
            Token::AtAtAt(m) => {
                if *m == n {
                    return Some(i - k);
                }
            },
            _ => {},
        }
        i = i + 1;
    }
    None
}

fn skip_blank_from(t: &Vec<Spanned>, j: usize) -> (r: usize)
    requires
        j <= t.len(),
    ensures
        r == skip_blank(t@, j as nat),
        r <= t.len(),
{
    let mut i: usize = j;
    while i < t.len() && (t[i].token.kind() == TokenKind::WhiteSpace || t[i].token.kind()
        == TokenKind::LineBreak)
        invariant
            j <= i <= t.len(),
            skip_blank(t@, i as nat) == skip_blank(t@, j as nat),
        decreases t.len() - i,
    {
        i = i + 1;
    }
    i
}

fn queues_at_exec(t: &Vec<Spanned>, j: usize) -> (r: bool)
    requires
        j <= t.len(),
    ensures
        r == queues_at(t@, j as nat),
{
    let q = skip_blank_from(t, j);
    if q >= t.len() {
        return false;
    }
    let k = t[q].token.kind();
    if k == TokenKind::AtAtAt {
        return true;
    }
    if q + 1 >= t.len() {
        return false;
    }
    let k1 = t[q + 1].token.kind();
    if k == TokenKind::At && k1 == TokenKind::Atom {
        return true;
    }
    if k == TokenKind::AtAt && (k1 == TokenKind::ParenOpen || k1 == TokenKind::BracketOpen) {
        return true;
    }
    k == TokenKind::AtAt && k1 == TokenKind::Atom && q + 2 < t.len() && (t[q + 2].token.kind()
        == TokenKind::ParenOpen || t[q + 2].token.kind() == TokenKind::BracketOpen)
}

fn atom_of(tok: &Token) -> (r: Atom)
    ensures
        r.content@ == token_text(*tok) || !(tok is Atom),
{
    match tok {
        Token::Atom(s) => Atom { content: s.clone() },
        _ => Atom { content: String::new() },
    }
}

fn dangling(pend_at: (usize, usize)) -> (e: ParseError)
    ensures
        e == (ParseError::Dangling { start: pend_at.0, end: pend_at.1 }),
{
    ParseError::Dangling { start: pend_at.0, end: pend_at.1 }
}

/// One step of the entity loop at an `@@` token: an in-flow annotation, an
/// item, or prose that starts with `@@name`.
fn sigil_step(
    t: &Vec<Spanned>,
    j: usize,
    depth: usize,
    term: Option<Frame>,
    acc: &mut Vec<Entity>,
    pend: &mut VecDeque<Annotation>,
    pend_at: &mut (usize, usize),
) -> (r: Result<usize, ParseError>)
    requires
        j < t.len(),
        depth <= MAX_DEPTH,
        kind(t@, j as int) == TokenKind::AtAt,
        !(term is Some && term->0.close == TokenKind::AtAt),
    ensures
        match r {
            Ok(j2) => j < j2 <= t.len() && entities_from(
                t@,
                j as nat,
                depth as nat,
                term,
                entities_view(*old(acc), old(acc)@.len()),
                queue_view(*old(pend)),
                *old(pend_at),
            ) == shifted(
                entities_from(
                    t@,
                    j2 as nat,
                    depth as nat,
                    term,
                    entities_view(*final(acc), final(acc)@.len()),
                    queue_view(*final(pend)),
                    *final(pend_at),
                ),
                (j2 - j) as nat,
            ),
            Err(e) => entities_from(
                t@,
                j as nat,
                depth as nat,
                term,
                entities_view(*old(acc), old(acc)@.len()),
                queue_view(*old(pend)),
                *old(pend_at),
            ) == Err::<(Seq<EntityV>, nat), ParseError>(e),
        },
{
    assert(queue_view(*pend).len() == pend@.len());
    if j + 1 >= t.len() {
        return Err(ParseError::UnexpectedEnd { expected: Expected::NameOrPayload });
    }
    let k1 = t[j + 1].token.kind();
    if k1 == TokenKind::ParenOpen || k1 == TokenKind::BracketOpen {
        match annotation_from(t, j + 1, depth) {
            Err(e) => {
                return Err(e);
            },
            Ok((a, m)) => {
                let nx = j + 2 + m;
                if queues_at_exec(t, nx) {
                    if pend.len() == 0 {
                        *pend_at = (t[j].start, t[j].end);
                    }
                    let ghost before = *pend;
                    let ghost av = annotation_view(a);
                    pend.push_back(a);
                    proof {
                        assert(queue_view(*pend) =~= queue_view(before).push(av));
                    }
                } else if pend.len() > 0 {
                    return Err(dangling(*pend_at));
                } else {
                    push_entity(acc, Entity::IncontextAnnotation(a));
                }
                return Ok(nx);
            },
        }
    } else if k1 == TokenKind::Atom {
        // `@@name` without a payload right after it is prose.
        let has_payload = j + 2 < t.len() && (t[j + 2].token.kind() == TokenKind::ParenOpen
            || t[j + 2].token.kind() == TokenKind::BracketOpen);
        if !has_payload {
            if pend.len() > 0 {
                return Err(dangling(*pend_at));
            }
            let (content, m) = named_prose(t, j);
            push_entity(acc, Entity::Raw(Raw { content }));
            return Ok(j + m);
        }
        match annotation_from(t, j + 2, depth) {
            Err(e) => {
                return Err(e);
            },
            Ok((a, m)) => {
                let name = atom_of(&t[j + 1].token);
                let mut attached = VecDeque::new();
                std::mem::swap(&mut attached, pend);
                proof {
                    assert(queue_view(*pend) =~= Seq::empty());
                }
                push_entity(
                    acc,
                    Entity::Item(Annotated { attached, inner: Item { name, annotation: a } }),
                );
                return Ok(j + 3 + m);
            },
        }
    } else {
        return Err(
            ParseError::Unexpected {
                start: t[j + 1].start,
                end: t[j + 1].end,
                found: k1,
                expected: Expected::NameOrPayload,
            },
        );
    }
}

/// Parses the entities from `j0` on, inside a body that `term` closes (the
/// whole input when `None`).
#[verifier::rlimit(100)]
#[verifier::spinoff_prover]
fn entities_exec(t: &Vec<Spanned>, j0: usize, depth: usize, term: Option<Frame>) -> (r: Result<
    (Vec<Entity>, usize),
    ParseError,
>)
    requires
        j0 <= t.len(),
        depth <= MAX_DEPTH,
    ensures
        entities_outcome(
            r,
            entities_from(t@, j0 as nat, depth as nat, term, Seq::empty(), Seq::empty(), (0, 0)),
        ),
        r matches Ok((_, n)) ==> n <= t.len() - j0,
    decreases t.len() - j0,
{
    let ghost goal = entities_from(
        t@,
        j0 as nat,
        depth as nat,
        term,
        Seq::empty(),
        Seq::empty(),
        (0, 0),
    );
    let mut acc: Vec<Entity> = Vec::new();
    let mut pend: VecDeque<Annotation> = VecDeque::new();
    let mut pend_at: (usize, usize) = (0, 0);
    let mut j: usize = j0;
    proof {
        assert(queue_view(pend) =~= Seq::empty());
    }
    loop
        invariant
            j0 <= j <= t.len(),
            depth <= MAX_DEPTH,
            goal == entities_from(
                t@,
                j0 as nat,
                depth as nat,
                term,
                Seq::empty(),
                Seq::empty(),
                (0, 0),
            ),
            goal == shifted(
                entities_from(
                    t@,
                    j as nat,
                    depth as nat,
                    term,
                    entities_view(acc, acc@.len()),
                    queue_view(pend),
                    pend_at,
                ),
                (j - j0) as nat,
            ),
        decreases t.len() - j,
    {
        assert(queue_view(pend).len() == pend@.len());
        if j >= t.len() {
            match term {
                None => {
                    if pend.len() > 0 {
                        return Err(dangling(pend_at));
                    }
                    return Ok((acc, j - j0));
                },
                Some(f) => {
                    return Err(
                        ParseError::Unclosed {
                            start: f.start,
                            end: f.end,
                            found: None,
                            expected: Expected::Token(f.close),
                        },
                    );
                },
            }
        }
        let k = t[j].token.kind();
        let is_term = match term {
            Some(f) => k == f.close,
            None => false,
        };
        if is_term {
            if pend.len() > 0 {
                return Err(dangling(pend_at));
            }
            return Ok((acc, j - j0 + 1));
        } else if k == TokenKind::WhiteSpace || k == TokenKind::LineBreak {
            j = j + 1;
        } else if k == TokenKind::Atom || k == TokenKind::Unknown || k == TokenKind::Hash {
            if pend.len() > 0 {
                return Err(dangling(pend_at));
            }
            let m = raw_len_of(t, j);
            let content = texts_of(t, j, j + m);
            push_entity(&mut acc, Entity::Raw(Raw { content }));
            j = j + m;
        } else if k == TokenKind::AtAt {
            match sigil_step(t, j, depth, term, &mut acc, &mut pend, &mut pend_at) {
                Ok(j2) => {
                    j = j2;
                },
                Err(e) => {
                    return Err(e);
                },
            }
        } else if k == TokenKind::At {
            if j + 1 >= t.len() {
                return Err(ParseError::UnexpectedEnd { expected: Expected::Token(TokenKind::Atom) });
            }
            let k1 = t[j + 1].token.kind();
            if k1 != TokenKind::Atom {
                return Err(
                    ParseError::Unexpected {
                        start: t[j + 1].start,
                        end: t[j + 1].end,
                        found: k1,
                        expected: Expected::Token(TokenKind::Atom),
                    },
                );
            }
            if depth >= MAX_DEPTH {
                return Err(ParseError::TooDeep { start: t[j].start, end: t[j].end });
            }
            let k2 = if j + 2 < t.len() {
                t[j + 2].token.kind()
            } else {
                TokenKind::At
            };
            let (style, body_start, frame) = if k2 == TokenKind::ParenOpen {
                (
                    BlockStyle::Delimited,
                    j + 3,
                    Frame { close: TokenKind::ParenClose, start: t[j + 2].start, end: t[j + 2].end },
                )
            } else if k2 == TokenKind::BraceOpen {
                (
                    BlockStyle::Braced,
                    j + 3,
                    Frame { close: TokenKind::BraceClose, start: t[j + 2].start, end: t[j + 2].end },
                )
            } else {
                (
                    BlockStyle::Incontext,
                    j + 2,
                    Frame { close: TokenKind::AtEnd, start: t[j].start, end: t[j].end },
                )
            };
            match entities_exec(t, body_start, depth + 1, Some(frame)) {
                Err(e) => {
                    return Err(e);
                },
                Ok((body, m)) => {
                    let name = atom_of(&t[j + 1].token);
                    let attached = pend;
                    pend = VecDeque::new();
                    proof {
                        assert(queue_view(pend) =~= Seq::empty());
                    }
                    push_entity(
                        &mut acc,
                        Entity::Block(
                            Annotated {
                                attached,
                                inner: Block { style, name, top: Top { entities: body } },
                            },
                        ),
                    );
                    j = body_start + m;
                },
            }
        } else if k == TokenKind::AtAtAt {
            let n = match &t[j].token {
                Token::AtAtAt(n) => *n,
                _ => 0,
            };
            match fence_from(t, j + 1, n) {
                None => {
                    return Err(
                        ParseError::Unclosed {
                            start: t[j].start,
                            end: t[j].end,
                            found: None,
                            expected: Expected::Fence(n),
                        },
                    );
                },
                Some(d) => {
                    let content = texts_of(t, j + 1, j + 1 + d);
                    let attached = pend;
                    pend = VecDeque::new();
                    proof {
                        assert(queue_view(pend) =~= Seq::empty());
                    }
                    push_entity(&mut acc, Entity::Blob(Annotated { attached, inner: Blob { content } }));
                    j = j + 2 + d;
                },
            }
        } else {
            match term {
                Some(f) => {
                    if k == TokenKind::ParenClose || k == TokenKind::BracketClose || k
                        == TokenKind::BraceClose || k == TokenKind::AtEnd {
                        return Err(
                            ParseError::Unclosed {
                                start: f.start,
                                end: f.end,
                                found: Some(k),
                                expected: Expected::Token(f.close),
                            },
                        );
                    }
                },
                None => {},
            }
            return Err(
                ParseError::Unexpected {
                    start: t[j].start,
                    end: t[j].end,
                    found: k,
                    expected: Expected::Entity,
                },
            );
        }
    }
}

/// `r` is the executable counterpart of the spec outcome `s`.
pub open spec fn top_outcome(r: Result<Top, ParseError>, s: Result<Seq<EntityV>, ParseError>) -> bool {
    match (r, s) {
        (Ok(top), Ok(es)) => top_view(top) == es,
        (Err(e), Err(se)) => e == se,
        _ => false,
    }
}

/// Parses a whole document from its tokens.
pub fn parse(tokens: &Vec<Spanned>) -> (r: Result<Top, ParseError>)
    ensures
        top_outcome(r, document(tokens@)),
{
    match entities_exec(tokens, 0, 0, None) {
        Ok((entities, _)) => Ok(Top { entities }),
        Err(e) => Err(e),
    }
}

/// Parses tokens that form exactly one annotation.
pub fn parse_annotation(tokens: &Vec<Spanned>) -> (r: Result<Annotation, ParseError>)
    ensures
        match (r, lone_annotation(tokens@)) {
            (Ok(a), Ok(av)) => annotation_view(a) == av,
            (Err(e), Err(se)) => e == se,
            _ => false,
        },
{
    if tokens.len() == 0 {
        return Err(ParseError::UnexpectedEnd { expected: Expected::Payload });
    }
    let k = tokens[0].token.kind();
    if k != TokenKind::ParenOpen && k != TokenKind::BracketOpen {
        return Err(
            ParseError::Unexpected {
                start: tokens[0].start,
                end: tokens[0].end,
                found: k,
                expected: Expected::Payload,
            },
        );
    }
    match annotation_from(tokens, 0, 0) {
        Err(e) => Err(e),
        Ok((a, n)) => {
            if n + 1 < tokens.len() {
                Err(
                    ParseError::Unexpected {
                        start: tokens[n + 1].start,
                        end: tokens[n + 1].end,
                        found: tokens[n + 1].token.kind(),
                        expected: Expected::End,
                    },
                )
            } else {
                Ok(a)
            }
        },
    }
}

/// Tokenizes and parses a whole document.
pub fn parse_text(text: &str) -> (r: Result<Top, ParseError>)
    ensures
        exists|toks: Seq<Spanned>| lexes(text@, toks) && top_outcome(r, document(toks)),
{
    let tokens = crate::token::tokens_of(text);
    parse(&tokens)
}

/// Tokenizes and parses text that forms exactly one annotation.
pub fn parse_annotation_text(text: &str) -> (r: Result<Annotation, ParseError>)
    ensures
        exists|toks: Seq<Spanned>|
            lexes(text@, toks) && match (r, lone_annotation(toks)) {
                (Ok(a), Ok(av)) => annotation_view(a) == av,
                (Err(e), Err(se)) => e == se,
                _ => false,
            },
{
    let tokens = crate::token::tokens_of(text);
    parse_annotation(&tokens)
}

/// Raw text and blob contents are verbatim: in a tokenization of `s` whose
/// token `k` starts at character index `pos[k]`, the text of the tokens `a..b`
/// is exactly the source from `pos[a]` to `pos[b]`, whitespace included.
pub proof fn lemma_texts_are_source(s: Seq<char>, t: Seq<Spanned>, pos: Seq<int>, a: int, b: int)
    requires
        lexes_at(s, t, pos),
        0 <= a <= b <= t.len(),
    ensures
        0 <= pos[a] <= pos[b] <= s.len(),
        texts(t, a, b) == s.subrange(pos[a], pos[b]),
    decreases b - a,
{
    if b == a {
        lemma_position_in_range(s, t, pos, a);
        assert(texts(t, a, a) =~= s.subrange(pos[a], pos[a]));
    } else {
        lemma_texts_are_source(s, t, pos, a, b - 1);
        assert(step_at(s, t, pos, b - 1));
        crate::token::lemma_end_at_advances(s, pos[b - 1]);
        assert(texts(t, a, b) =~= s.subrange(pos[a], pos[b]));
    }
}

proof fn lemma_position_in_range(s: Seq<char>, t: Seq<Spanned>, pos: Seq<int>, k: int)
    requires
        lexes_at(s, t, pos),
        0 <= k <= t.len(),
    ensures
        0 <= pos[k] <= s.len(),
{
    if k < t.len() {
        assert(step_at(s, t, pos, k));
    }
}

/// Balance of groups: a group that parses ends at a closer of its own kind,
/// and a group that fails to close is reported by the span of an opener at or
/// after its own.
pub proof fn lemma_annotation_balance(t: Seq<Spanned>, i: int, depth: nat)
    requires
        0 <= i < t.len(),
        is_opener(kind(t, i)),
    ensures
        annotation_at(t, i, depth) matches Ok((_, n)) ==> i + n < t.len() && kind(t, i + n)
            == closer_of(kind(t, i)),
        annotation_at(t, i, depth) matches Err(ParseError::Unclosed { start, end, .. }) ==> exists|
            k: int,
        |
            i <= k < t.len() && is_opener(kind(t, k)) && t[k].start == start && t[k].end == end,
    decreases left(t, i), 0nat,
{
    if depth < MAX_DEPTH {
        lemma_elements_balance(t, i, i + 1, depth + 1, Seq::empty());
    }
}

proof fn lemma_elements_balance(t: Seq<Spanned>, open: int, j: int, depth: nat, acc: Seq<ElementV>)
    requires
        0 <= open < j,
        open < t.len(),
        is_opener(kind(t, open)),
    ensures
        elements_from(t, open, j, depth, acc) matches Ok((_, n)) ==> n >= 1 && j + n - 1 < t.len()
            && kind(t, j + n - 1) == closer_of(kind(t, open)),
        elements_from(t, open, j, depth, acc) matches Err(
            ParseError::Unclosed { start, end, .. },
        ) ==> exists|k: int|
            open <= k < t.len() && is_opener(kind(t, k)) && t[k].start == start && t[k].end == end,
    decreases left(t, j), 1nat,
{
    if j < t.len() {
        let k = kind(t, j);
        if is_blank(k) {
            lemma_elements_balance(t, open, j + 1, depth, acc);
        } else if k == TokenKind::Atom {
            lemma_elements_balance(t, open, j + 1, depth, acc.push(ElementV::Atom(atom_text(t, j))));
        } else if is_opener(k) {
            lemma_annotation_balance(t, j, depth);
            match annotation_at(t, j, depth) {
                Ok((inner, m)) => {
                    lemma_elements_balance(
                        t,
                        open,
                        j + 1 + m,
                        depth,
                        acc.push(ElementV::Annotation(inner)),
                    );
                },
                Err(_) => {},
            }
        }
    }
    match elements_from(t, open, j, depth, acc) {
        Err(ParseError::Unclosed { start, end, .. }) => {
            if t[open].start == start && t[open].end == end {
                assert(open <= open < t.len() && is_opener(kind(t, open)));
            }
        },
        _ => {},
    }
}

/// Nesting is bounded: a run of openers that reaches past `MAX_DEPTH` levels
/// is refused with `TooDeep`, naming the first opener past the limit.
pub proof fn lemma_too_deep(t: Seq<Spanned>, i: int, depth: nat)
    requires
        0 <= i,
        depth <= MAX_DEPTH,
        i + (MAX_DEPTH - depth) < t.len(),
        forall|k: int| i <= k <= i + (MAX_DEPTH - depth) ==> is_opener(#[trigger] kind(t, k)),
    ensures
        annotation_at(t, i, depth) == Err::<(AnnotationV, nat), ParseError>(
            ParseError::TooDeep {
                start: t[i + (MAX_DEPTH - depth)].start,
                end: t[i + (MAX_DEPTH - depth)].end,
            },
        ),
    decreases MAX_DEPTH - depth,
{
    if depth < MAX_DEPTH {
        assert(is_opener(kind(t, i + 1)));
        lemma_too_deep(t, i + 1, depth + 1);
        assert(i + 1 + (MAX_DEPTH - (depth + 1)) == i + (MAX_DEPTH - depth));
    }
}

/// An in-flow annotation that another annotation, or an item, block or blob,
/// follows (past blank tokens) joins the end of the queue.
pub proof fn lemma_annotation_queued(
    t: Seq<Spanned>,
    j: nat,
    depth: nat,
    term: Option<Frame>,
    acc: Seq<EntityV>,
    pend: Seq<AnnotationV>,
    pend_at: (usize, usize),
    a: AnnotationV,
    m: nat,
)
    requires
        starts_annotation(t, j),
        term is None || term->0.close != TokenKind::AtAt,
        annotation_at(t, (j + 1) as int, depth) == Ok::<(AnnotationV, nat), ParseError>((a, m)),
        queues_at(t, j + 2 + m),
    ensures
        entities_from(t, j, depth, term, acc, pend, pend_at) == shifted(
            entities_from(
                t,
                j + 2 + m,
                depth,
                term,
                acc,
                pend.push(a),
                if pend.len() == 0 {
                    (t[j as int].start, t[j as int].end)
                } else {
                    pend_at
                },
            ),
            2 + m,
        ),
{
}

/// An item takes the whole queue, in the order it was filled, and leaves it empty.
pub proof fn lemma_item_takes_queue(
    t: Seq<Spanned>,
    j: nat,
    depth: nat,
    term: Option<Frame>,
    acc: Seq<EntityV>,
    pend: Seq<AnnotationV>,
    pend_at: (usize, usize),
    a: AnnotationV,
    m: nat,
)
    requires
        j + 2 < t.len(),
        kind(t, j as int) == TokenKind::AtAt,
        kind(t, (j + 1) as int) == TokenKind::Atom,
        is_opener(kind(t, (j + 2) as int)),
        term is None || term->0.close != TokenKind::AtAt,
        annotation_at(t, (j + 2) as int, depth) == Ok::<(AnnotationV, nat), ParseError>((a, m)),
    ensures
        entities_from(t, j, depth, term, acc, pend, pend_at) == shifted(
            entities_from(
                t,
                j + 3 + m,
                depth,
                term,
                acc.push(EntityV::Item { attached: pend, name: atom_text(t, (j + 1) as int), payload: a }),
                Seq::empty(),
                pend_at,
            ),
            3 + m,
        ),
{
}

/// A queue that still holds annotations when the input or the enclosing body
/// ends is an error.
pub proof fn lemma_dangling_queue(
    t: Seq<Spanned>,
    j: nat,
    depth: nat,
    term: Option<Frame>,
    acc: Seq<EntityV>,
    pend: Seq<AnnotationV>,
    pend_at: (usize, usize),
)
    requires
        pend.len() > 0,
        (j >= t.len() && term is None) || (j < t.len() && term is Some && kind(t, j as int)
            == term->0.close),
    ensures
        entities_from(t, j, depth, term, acc, pend, pend_at) == Err::<(Seq<EntityV>, nat), ParseError>(
            ParseError::Dangling { start: pend_at.0, end: pend_at.1 },
        ),
{
}

/// Tokens that open something that must be closed: a group, a block, a fence.
pub open spec fn opens(k: TokenKind) -> bool {
    k == TokenKind::ParenOpen || k == TokenKind::BracketOpen || k == TokenKind::BraceOpen || k
        == TokenKind::At || k == TokenKind::AtAtAt
}

/// `Unclosed { start, end, .. }` names the body's own opener `term`, or an
/// opener at or after `j`.
pub open spec fn names_opener(t: Seq<Spanned>, j: int, term: Option<Frame>, start: usize, end: usize) -> bool {
    (term is Some && term->0.start == start && term->0.end == end) || exists|k: int|
        j <= k < t.len() && opens(#[trigger] kind(t, k)) && t[k].start == start && t[k].end == end
}

/// Balance of bodies: a body that parses ends at its own closer, and an
/// error for something left open names the body's opener or an opener inside it.
#[verifier::rlimit(100)]
#[verifier::spinoff_prover]
pub proof fn lemma_entities_balance(
    t: Seq<Spanned>,
    j: nat,
    depth: nat,
    term: Option<Frame>,
    acc: Seq<EntityV>,
    pend: Seq<AnnotationV>,
    pend_at: (usize, usize),
)
    ensures
        entities_from(t, j, depth, term, acc, pend, pend_at) matches Ok((_, n)) ==> (term is Some
            ==> n >= 1 && j + n - 1 < t.len() && kind(t, j + n - 1) == term->0.close),
        entities_from(t, j, depth, term, acc, pend, pend_at) matches Err(
            ParseError::Unclosed { start, end, .. },
        ) ==> names_opener(t, j as int, term, start, end),
    decreases left(t, j as int), 1nat,
{
    if j < t.len() {
        let k = kind(t, j as int);
        let tj = t[j as int];
        if term is Some && k == term->0.close {
        } else if is_blank(k) {
            lemma_entities_balance(t, j + 1, depth, term, acc, pend, pend_at);
            lemma_names_opener_later(t, j as int, (j + 1) as int, term, entities_from(t, j + 1, depth, term, acc, pend, pend_at));
        } else if is_text(k) {
            if pend.len() == 0 {
                let m = raw_len(t, j);
                let acc2 = acc.push(EntityV::Raw(texts(t, j as int, (j + m) as int)));
                lemma_entities_balance(t, j + m, depth, term, acc2, pend, pend_at);
                lemma_names_opener_later(t, j as int, (j + m) as int, term, entities_from(t, j + m, depth, term, acc2, pend, pend_at));
            }
        } else if k == TokenKind::AtAt {
            lemma_sigil_balance(t, j, depth, term, acc, pend, pend_at);
        } else if k == TokenKind::At {
            lemma_block_balance(t, j, depth, term, acc, pend, pend_at);
        } else if k == TokenKind::AtAtAt {
            assert(opens(kind(t, j as int)));
            let n = fence_width(tj.token);
            match fence_dist(t, j + 1, n) {
                None => {},
                Some(d) => {
                    let acc2 = acc.push(EntityV::Blob { attached: pend, content: texts(t, (j + 1) as int, (j + 1 + d) as int) });
                    lemma_entities_balance(t, j + 2 + d, depth, term, acc2, Seq::empty(), pend_at);
                    lemma_names_opener_later(t, j as int, (j + 2 + d) as int, term, entities_from(t, j + 2 + d, depth, term, acc2, Seq::empty(), pend_at));
                },
            }
        }
    }
}

#[verifier::rlimit(100)]
#[verifier::spinoff_prover]
proof fn lemma_sigil_balance(
    t: Seq<Spanned>,
    j: nat,
    depth: nat,
    term: Option<Frame>,
    acc: Seq<EntityV>,
    pend: Seq<AnnotationV>,
    pend_at: (usize, usize),
)
    requires
        j < t.len(),
        kind(t, j as int) == TokenKind::AtAt,
        !(term is Some && kind(t, j as int) == term->0.close),
    ensures
        entities_from(t, j, depth, term, acc, pend, pend_at) matches Ok((_, n)) ==> (term is Some
            ==> n >= 1 && j + n - 1 < t.len() && kind(t, j + n - 1) == term->0.close),
        entities_from(t, j, depth, term, acc, pend, pend_at) matches Err(
            ParseError::Unclosed { start, end, .. },
        ) ==> names_opener(t, j as int, term, start, end),
    decreases left(t, j as int), 0nat,
{
    let tj = t[j as int];
    if j + 1 < t.len() && is_opener(kind(t, (j + 1) as int)) {
        lemma_annotation_balance(t, (j + 1) as int, depth);
        lemma_opener_opens(t, j as int, (j + 1) as int, term, annotation_at(t, (j + 1) as int, depth));
        match annotation_at(t, (j + 1) as int, depth) {
            Ok((a, m)) => {
                let nx = j + 2 + m;
                let at = if pend.len() == 0 {
                    (tj.start, tj.end)
                } else {
                    pend_at
                };
                let acc2 = acc.push(EntityV::IncontextAnnotation(a));
                lemma_entities_balance(t, nx, depth, term, acc, pend.push(a), at);
                lemma_names_opener_later(t, j as int, nx as int, term, entities_from(t, nx, depth, term, acc, pend.push(a), at));
                lemma_entities_balance(t, nx, depth, term, acc2, pend, pend_at);
                lemma_names_opener_later(t, j as int, nx as int, term, entities_from(t, nx, depth, term, acc2, pend, pend_at));
            },
            Err(_) => {},
        }
    } else if j + 1 < t.len() && kind(t, (j + 1) as int) == TokenKind::Atom && !(j + 2 < t.len()
        && is_opener(kind(t, (j + 2) as int))) {
        if pend.len() == 0 {
            let m = named_prose_len(t, j);
            let acc2 = acc.push(EntityV::Raw(texts(t, j as int, (j + m) as int)));
            lemma_entities_balance(t, j + m, depth, term, acc2, pend, pend_at);
            lemma_names_opener_later(t, j as int, (j + m) as int, term, entities_from(t, j + m, depth, term, acc2, pend, pend_at));
        }
    } else if j + 2 < t.len() && kind(t, (j + 1) as int) == TokenKind::Atom && is_opener(
        kind(t, (j + 2) as int),
    ) {
        lemma_annotation_balance(t, (j + 2) as int, depth);
        lemma_opener_opens(t, j as int, (j + 2) as int, term, annotation_at(t, (j + 2) as int, depth));
        match annotation_at(t, (j + 2) as int, depth) {
            Ok((a, m)) => {
                let acc2 = acc.push(
                    EntityV::Item { attached: pend, name: atom_text(t, (j + 1) as int), payload: a },
                );
                lemma_entities_balance(t, j + 3 + m, depth, term, acc2, Seq::empty(), pend_at);
                lemma_names_opener_later(t, j as int, (j + 3 + m) as int, term, entities_from(t, j + 3 + m, depth, term, acc2, Seq::empty(), pend_at));
            },
            Err(_) => {},
        }
    }
}

proof fn lemma_block_balance(
    t: Seq<Spanned>,
    j: nat,
    depth: nat,
    term: Option<Frame>,
    acc: Seq<EntityV>,
    pend: Seq<AnnotationV>,
    pend_at: (usize, usize),
)
    requires
        j < t.len(),
        kind(t, j as int) == TokenKind::At,
        !(term is Some && kind(t, j as int) == term->0.close),
    ensures
        entities_from(t, j, depth, term, acc, pend, pend_at) matches Ok((_, n)) ==> (term is Some
            ==> n >= 1 && j + n - 1 < t.len() && kind(t, j + n - 1) == term->0.close),
        entities_from(t, j, depth, term, acc, pend, pend_at) matches Err(
            ParseError::Unclosed { start, end, .. },
        ) ==> names_opener(t, j as int, term, start, end),
    decreases left(t, j as int), 0nat,
{
    let tj = t[j as int];
    if j + 1 < t.len() && kind(t, (j + 1) as int) == TokenKind::Atom && depth < MAX_DEPTH {
        let k2 = if j + 2 < t.len() {
            kind(t, (j + 2) as int)
        } else {
            TokenKind::At
        };
        let style = if k2 == TokenKind::ParenOpen {
            BlockStyle::Delimited
        } else if k2 == TokenKind::BraceOpen {
            BlockStyle::Braced
        } else {
            BlockStyle::Incontext
        };
        let body_start: nat = if style == BlockStyle::Incontext {
            j + 2
        } else {
            j + 3
        };
        let frame = if style == BlockStyle::Delimited {
            Frame { close: TokenKind::ParenClose, start: t[(j + 2) as int].start, end: t[(j + 2) as int].end }
        } else if style == BlockStyle::Braced {
            Frame { close: TokenKind::BraceClose, start: t[(j + 2) as int].start, end: t[(j + 2) as int].end }
        } else {
            Frame { close: TokenKind::AtEnd, start: tj.start, end: tj.end }
        };
        let inner = entities_from(t, body_start, depth + 1, Some(frame), Seq::empty(), Seq::empty(), (0, 0));
        lemma_entities_balance(t, body_start, depth + 1, Some(frame), Seq::empty(), Seq::empty(), (0, 0));
        if style == BlockStyle::Incontext {
            assert(opens(kind(t, j as int)));
        } else {
            assert(opens(kind(t, (j + 2) as int)));
        }
        lemma_names_opener_later(t, j as int, (body_start) as int, Some(frame), inner);
        match inner {
            Ok((body, m)) => {
                let acc2 = acc.push(
                    EntityV::Block { attached: pend, style, name: atom_text(t, (j + 1) as int), body },
                );
                lemma_entities_balance(t, body_start + m, depth, term, acc2, Seq::empty(), pend_at);
                lemma_names_opener_later(t, j as int, (body_start + m) as int, term, entities_from(t, body_start + m, depth, term, acc2, Seq::empty(), pend_at));
            },
            Err(_) => {},
        }
    }
}

proof fn lemma_names_opener_later<V>(
    t: Seq<Spanned>,
    j: int,
    j2: int,
    term: Option<Frame>,
    r: Result<(V, nat), ParseError>,
)
    requires
        0 <= j <= j2,
        r matches Err(ParseError::Unclosed { start, end, .. }) ==> names_opener(t, j2, term, start, end),
    ensures
        r matches Err(ParseError::Unclosed { start, end, .. }) ==> names_opener(t, j, term, start, end),
{
    match r {
        Err(ParseError::Unclosed { start, end, .. }) => {
            if !(term is Some && term->0.start == start && term->0.end == end) {
                let k = choose|k: int|
                    j2 <= k < t.len() && opens(#[trigger] kind(t, k)) && t[k].start == start && t[k].end == end;
                assert(j <= k < t.len() && opens(kind(t, k)));
            }
        },
        _ => {},
    }
}

proof fn lemma_opener_opens<V>(
    t: Seq<Spanned>,
    j: int,
    i: int,
    term: Option<Frame>,
    r: Result<(V, nat), ParseError>,
)
    requires
        0 <= j <= i,
        r matches Err(ParseError::Unclosed { start, end, .. }) ==> exists|k: int|
            i <= k < t.len() && is_opener(kind(t, k)) && t[k].start == start && t[k].end == end,
    ensures
        r matches Err(ParseError::Unclosed { start, end, .. }) ==> names_opener(t, j, term, start, end),
{
    match r {
        Err(ParseError::Unclosed { start, end, .. }) => {
            let k = choose|k: int|
                i <= k < t.len() && is_opener(kind(t, k)) && t[k].start == start && t[k].end == end;
            assert(opens(kind(t, k)));
        },
        _ => {},
    }
}

} // verus!
