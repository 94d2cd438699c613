//! The tokenizer: a maximal-munch scanner over the characters of a document.
//!
//! Spans are byte offsets into the UTF-8 encoding of the input: `start` is the
//! offset of the token's first byte, `end` one past its last.
use vstd::prelude::*;
use crate::text::push_char;
use vstd::utf8::{encode_scalar, encode_utf8};

verus! {

/// A terminal symbol of the document grammar.
#[derive(Clone, Debug)]
pub enum Token {
    /// A run of atom characters, a double-quoted string, or a backslash escape.
    Atom(String),
    /// A single newline.
    LineBreak,
    /// Any other single whitespace character.
    WhiteSpace(char),
    At,
    AtAt,
    /// Three or more `@`; the payload is the fence width.
    AtAtAt(usize),
    Hash,
    AtEnd,
    ParenOpen,
    ParenClose,
    BracketOpen,
    BracketClose,
    BraceOpen,
    BraceClose,
    /// Any single character that no other rule matches.
    Unknown(char),
}

/// The shape of a token, without its payload.
#[derive(Clone, Copy, Debug, PartialEq, Eq, Structural)]
pub enum TokenKind {
    Atom,
    LineBreak,
    WhiteSpace,
    At,
    AtAt,
    AtAtAt,
    Hash,
    AtEnd,
    ParenOpen,
    ParenClose,
    BracketOpen,
    BracketClose,
    BraceOpen,
    BraceClose,
    Unknown,
}

/// A token together with its span, in bytes of the UTF-8 input.
#[derive(Clone, Debug)]
pub struct Spanned {
    pub start: usize,
    pub token: Token,
    pub end: usize,
}

/// Failure to classify the character at `position`.
#[derive(Clone, Copy, Debug, PartialEq, Eq, Structural)]
pub struct LexError {
    pub position: usize,
}

pub open spec fn kind_of(t: Token) -> TokenKind {
    match t {
        Token::Atom(_) => TokenKind::Atom,
        Token::LineBreak => TokenKind::LineBreak,
        Token::WhiteSpace(_) => TokenKind::WhiteSpace,
        Token::At => TokenKind::At,
        Token::AtAt => TokenKind::AtAt,
        Token::AtAtAt(_) => TokenKind::AtAtAt,
        Token::Hash => TokenKind::Hash,
        Token::AtEnd => TokenKind::AtEnd,
        Token::ParenOpen => TokenKind::ParenOpen,
        Token::ParenClose => TokenKind::ParenClose,
        Token::BracketOpen => TokenKind::BracketOpen,
        Token::BracketClose => TokenKind::BracketClose,
        Token::BraceOpen => TokenKind::BraceOpen,
        Token::BraceClose => TokenKind::BraceClose,
        Token::Unknown(_) => TokenKind::Unknown,
    }
}

/// The source text a token stands for.
pub open spec fn token_text(t: Token) -> Seq<char> {
    match t {
        Token::Atom(s) => s@,
        Token::LineBreak => seq!['\n'],
        Token::WhiteSpace(c) => seq![c],
        Token::At => seq!['@'],
        Token::AtAt => seq!['@', '@'],
        Token::AtAtAt(n) => Seq::new(n as nat, |k: int| '@'),
        Token::Hash => seq!['#'],
        Token::AtEnd => seq!['@', 'e', 'n', 'd'],
        Token::ParenOpen => seq!['('],
        Token::ParenClose => seq![')'],
        Token::BracketOpen => seq!['['],
        Token::BracketClose => seq![']'],
        Token::BraceOpen => seq!['{'],
        Token::BraceClose => seq!['}'],
        Token::Unknown(c) => seq![c],
    }
}

impl Token {
    pub fn kind(&self) -> (k: TokenKind)
        ensures
            k == kind_of(*self),
    {
        match self {
            Token::Atom(_) => TokenKind::Atom,
            Token::LineBreak => TokenKind::LineBreak,
            Token::WhiteSpace(_) => TokenKind::WhiteSpace,
            Token::At => TokenKind::At,
            Token::AtAt => TokenKind::AtAt,
            Token::AtAtAt(_) => TokenKind::AtAtAt,
            Token::Hash => TokenKind::Hash,
            Token::AtEnd => TokenKind::AtEnd,
            Token::ParenOpen => TokenKind::ParenOpen,
            Token::ParenClose => TokenKind::ParenClose,
            Token::BracketOpen => TokenKind::BracketOpen,
            Token::BracketClose => TokenKind::BracketClose,
            Token::BraceOpen => TokenKind::BraceOpen,
            Token::BraceClose => TokenKind::BraceClose,
            Token::Unknown(_) => TokenKind::Unknown,
        }
    }

    /// The source text this token stands for.
    pub fn text(&self) -> (r: String)
        ensures
            r@ == token_text(*self),
    {
        let mut out = String::new();
        append_token_text(&mut out, self);
        out
    }
}

/// Appends the source text of `tok` to `out`.
pub(crate) fn append_token_text(out: &mut String, tok: &Token)
    ensures
        final(out)@ == old(out)@ + token_text(*tok),
{
    let ghost start = out@;
    match tok {
        Token::Atom(s) => {
            out.append(s.as_str());
        },
        Token::AtAtAt(n) => {
            let mut k: usize = 0;
            while k < *n
                invariant
                    k <= *n,
                    out@ == start + Seq::new(k as nat, |i: int| '@'),
                decreases *n - k,
            {
                push_char(out, '@');
                k = k + 1;
                assert(out@ =~= start + Seq::new(k as nat, |i: int| '@'));
            }
            assert(Seq::new(*n as nat, |i: int| '@') =~= token_text(*tok));
        },
        Token::AtEnd => {
            push_char(out, '@');
            push_char(out, 'e');
            push_char(out, 'n');
            push_char(out, 'd');
            assert(out@ =~= start + seq!['@', 'e', 'n', 'd']);
        },
        Token::AtAt => {
            push_char(out, '@');
            push_char(out, '@');
            assert(out@ =~= start + seq!['@', '@']);
        },
        _ => {
            let c = match tok {
                Token::LineBreak => '\n',
                Token::WhiteSpace(c) => *c,
                Token::At => '@',
                Token::Hash => '#',
                Token::ParenOpen => '(',
                Token::ParenClose => ')',
                Token::BracketOpen => '[',
                Token::BracketClose => ']',
                Token::BraceOpen => '{',
                Token::BraceClose => '}',
                Token::Unknown(c) => *c,
                _ => ' ',
            };
            push_char(out, c);
            assert(out@ =~= start + seq![c]);
        },
    }
}

impl PartialEq for Token {
    fn eq(&self, other: &Token) -> bool {
        self.kind() == other.kind() && self.text() == other.text()
    }
}

/// Two tokens are equal when they have the same kind and the same text.
impl vstd::std_specs::cmp::PartialEqSpecImpl for Token {
    open spec fn obeys_eq_spec() -> bool {
        true
    }

    open spec fn eq_spec(&self, other: &Token) -> bool {
        kind_of(*self) == kind_of(*other) && token_text(*self) == token_text(*other)
    }
}

/// Letters, digits and the punctuation that may appear in a bare atom.
pub open spec fn is_atom_char(c: char) -> bool {
    ('a' <= c && c <= 'z') || ('A' <= c && c <= 'Z') || ('0' <= c && c <= '9') || c == '+'
        || c == '*' || c == ',' || c == '.' || c == '_' || c == '~' || c == '=' || c == '?'
        || c == '!' || c == '$' || c == '%' || c == '&' || c == '`' || c == '\'' || c == '<'
        || c == '>' || c == ':' || c == ';' || c == '^' || c == '-' || c == '|' || c == '/'
}

/// The Unicode `White_Space` characters.
pub open spec fn is_space(c: char) -> bool {
    ('\t' <= c && c <= '\r') || c == ' ' || c == '\u{85}' || c == '\u{a0}' || c == '\u{1680}'
        || ('\u{2000}' <= c && c <= '\u{200a}') || c == '\u{2028}' || c == '\u{2029}'
        || c == '\u{202f}' || c == '\u{205f}' || c == '\u{3000}'
}

/// End of the maximal run of atom characters starting at `i`.
pub open spec fn atom_run_end(s: Seq<char>, i: int) -> int
    decreases s.len() - i,
{
    if 0 <= i < s.len() && is_atom_char(s[i]) {
        atom_run_end(s, i + 1)
    } else {
        i
    }
}

/// End of the maximal run of `@` starting at `i`.
pub open spec fn at_run_end(s: Seq<char>, i: int) -> int
    decreases s.len() - i,
{
    if 0 <= i < s.len() && s[i] == '@' {
        at_run_end(s, i + 1)
    } else {
        i
    }
}

/// Scanning the inside of a quoted string from `i`: the index just past the
/// closing quote, or `-1` when the input ends first.
pub open spec fn quote_end(s: Seq<char>, i: int) -> int
    decreases s.len() - i,
{
    if i < 0 || i >= s.len() {
        -1
    } else if s[i] == '"' {
        i + 1
    } else if s[i] == '\\' {
        if i + 1 < s.len() {
            quote_end(s, i + 2)
        } else {
            -1
        }
    } else {
        quote_end(s, i + 1)
    }
}

pub open spec fn has_end_keyword(s: Seq<char>, i: int) -> bool {
    i + 4 <= s.len() && s[i] == '@' && s[i + 1] == 'e' && s[i + 2] == 'n' && s[i + 3] == 'd'
}

/// The kind of the token that the scanner commits to at `i` (for `0 <= i < s.len()`).
pub open spec fn kind_at(s: Seq<char>, i: int) -> TokenKind {
    let c = s[i];
    if c == '@' {
        let n = at_run_end(s, i) - i;
        if n >= 3 {
            TokenKind::AtAtAt
        } else if n == 2 {
            TokenKind::AtAt
        } else if has_end_keyword(s, i) {
            TokenKind::AtEnd
        } else {
            TokenKind::At
        }
    } else if c == '#' {
        TokenKind::Hash
    } else if c == '(' {
        TokenKind::ParenOpen
    } else if c == ')' {
        TokenKind::ParenClose
    } else if c == '[' {
        TokenKind::BracketOpen
    } else if c == ']' {
        TokenKind::BracketClose
    } else if c == '{' {
        TokenKind::BraceOpen
    } else if c == '}' {
        TokenKind::BraceClose
    } else if c == '\n' {
        TokenKind::LineBreak
    } else if is_space(c) {
        TokenKind::WhiteSpace
    } else if is_atom_char(c) {
        TokenKind::Atom
    } else if c == '"' && quote_end(s, i + 1) >= 0 {
        TokenKind::Atom
    } else if c == '\\' && i + 1 < s.len() {
        TokenKind::Atom
    } else {
        TokenKind::Unknown
    }
}

/// The index just past the token that the scanner commits to at `i`.
pub open spec fn end_at(s: Seq<char>, i: int) -> int {
    let c = s[i];
    if c == '@' {
        let n = at_run_end(s, i) - i;
        if n >= 2 {
            at_run_end(s, i)
        } else if has_end_keyword(s, i) {
            i + 4
        } else {
            i + 1
        }
    } else if is_atom_char(c) {
        atom_run_end(s, i)
    } else if c == '"' && quote_end(s, i + 1) >= 0 {
        quote_end(s, i + 1)
    } else if c == '\\' && i + 1 < s.len() {
        atom_run_end(s, i + 2)
    } else {
        i + 1
    }
}

/// Byte offset, in the UTF-8 encoding of `s`, of the character at index `i`.
pub open spec fn byte_pos(s: Seq<char>, i: int) -> int {
    encode_utf8(s.subrange(0, i)).len() as int
}

/// `t` is the token that the scanner produces at character index `i`; its span
/// is given in bytes.
pub open spec fn lexed_at(s: Seq<char>, i: int, t: Spanned) -> bool {
    &&& 0 <= i < s.len()
    &&& t.start == byte_pos(s, i)
    &&& t.end == byte_pos(s, end_at(s, i))
    &&& kind_of(t.token) == kind_at(s, i)
    &&& token_text(t.token) == s.subrange(i, end_at(s, i))
}

/// Token `k` is the scanner's choice at character index `pos[k]`, and the next
/// token starts at character index `pos[k + 1]`, where this one ends.
pub open spec fn step_at(s: Seq<char>, toks: Seq<Spanned>, pos: Seq<int>, k: int) -> bool {
    lexed_at(s, pos[k], toks[k]) && pos[k + 1] == end_at(s, pos[k])
}

/// `toks` is the tokenization of `s`, token `k` starting at character index
/// `pos[k]`: consecutive tokens, each the scanner's choice at its start,
/// covering `s` from its first to its last character.
pub open spec fn lexes_at(s: Seq<char>, toks: Seq<Spanned>, pos: Seq<int>) -> bool {
    &&& pos.len() == toks.len() + 1
    &&& pos[0] == 0
    &&& pos.last() == s.len()
    &&& forall|k: int| 0 <= k < toks.len() ==> #[trigger] step_at(s, toks, pos, k)
}

/// `toks` is the tokenization of `s`.
pub open spec fn lexes(s: Seq<char>, toks: Seq<Spanned>) -> bool {
    exists|pos: Seq<int>| lexes_at(s, toks, pos)
}

proof fn lemma_quote_end_bounds(s: Seq<char>, i: int)
    requires
        0 <= i,
    ensures
        quote_end(s, i) == -1 || i < quote_end(s, i) <= s.len(),
    decreases s.len() - i,
{
    if i < s.len() && s[i] != '"' {
        if s[i] == '\\' {
            if i + 1 < s.len() {
                lemma_quote_end_bounds(s, i + 2);
            }
        } else {
            lemma_quote_end_bounds(s, i + 1);
        }
    }
}

proof fn lemma_atom_run_bounds(s: Seq<char>, i: int)
    requires
        0 <= i <= s.len(),
    ensures
        i <= atom_run_end(s, i) <= s.len(),
    decreases s.len() - i,
{
    if i < s.len() && is_atom_char(s[i]) {
        lemma_atom_run_bounds(s, i + 1);
    }
}

/// The scanner always advances: every token covers at least one character.
pub proof fn lemma_end_at_advances(s: Seq<char>, i: int)
    requires
        0 <= i < s.len(),
    ensures
        i < end_at(s, i) <= s.len(),
{
    lemma_atom_run_bounds(s, i);
    lemma_atom_run_bounds(s, i + 1);
    if i + 2 <= s.len() {
        lemma_atom_run_bounds(s, i + 2);
    }
    lemma_quote_end_bounds(s, i + 1);
    if s[i] == '@' {
        lemma_at_run_bounds(s, i);
    }
}

proof fn lemma_at_run_bounds(s: Seq<char>, i: int)
    requires
        0 <= i <= s.len(),
    ensures
        i <= at_run_end(s, i) <= s.len(),
    decreases s.len() - i,
{
    if i < s.len() && s[i] == '@' {
        lemma_at_run_bounds(s, i + 1);
    }
}

fn atom_char(c: char) -> (r: bool)
    ensures
        r == is_atom_char(c),
{
    ('a' <= c && c <= 'z') || ('A' <= c && c <= 'Z') || ('0' <= c && c <= '9') || c == '+'
        || c == '*' || c == ',' || c == '.' || c == '_' || c == '~' || c == '=' || c == '?'
        || c == '!' || c == '$' || c == '%' || c == '&' || c == '`' || c == '\'' || c == '<'
        || c == '>' || c == ':' || c == ';' || c == '^' || c == '-' || c == '|' || c == '/'
}

fn space_char(c: char) -> (r: bool)
    ensures
        r == is_space(c),
{
    ('\t' <= c && c <= '\r') || c == ' ' || c == '\u{85}' || c == '\u{a0}' || c == '\u{1680}'
        || ('\u{2000}' <= c && c <= '\u{200a}') || c == '\u{2028}' || c == '\u{2029}'
        || c == '\u{202f}' || c == '\u{205f}' || c == '\u{3000}'
}

fn scan_atom_run(s: &Vec<char>, i: usize) -> (j: usize)
    requires
        i <= s.len(),
    ensures
        j as int == atom_run_end(s@, i as int),
{
    let mut j: usize = i;
    while j < s.len() && atom_char(s[j])
        invariant
            i <= j <= s.len(),
            atom_run_end(s@, j as int) == atom_run_end(s@, i as int),
        decreases s.len() - j,
    {
        j = j + 1;
    }
    j
}

fn scan_at_run(s: &Vec<char>, i: usize) -> (j: usize)
    requires
        i <= s.len(),
    ensures
        i <= j <= s.len(),
        j as int == at_run_end(s@, i as int),
        forall|k: int| i <= k < j ==> s@[k] == '@',
{
    let mut j: usize = i;
    while j < s.len() && s[j] == '@'
        invariant
            i <= j <= s.len(),
            at_run_end(s@, j as int) == at_run_end(s@, i as int),
            forall|k: int| i <= k < j ==> s@[k] == '@',
        decreases s.len() - j,
    {
        j = j + 1;
    }
    j
}

/// Finds the end of a quoted string whose body starts at `i`.
fn scan_quote(s: &Vec<char>, i: usize) -> (r: Option<usize>)
    requires
        i <= s.len(),
    ensures
        match r {
            Some(e) => e as int == quote_end(s@, i as int),
            None => quote_end(s@, i as int) == -1,
        },
{
    let mut j: usize = i;
    while j < s.len()
        invariant
            i <= j,
            quote_end(s@, j as int) == quote_end(s@, i as int),
        decreases s.len() - j,
    {
        if s[j] == '"' {
            return Some(j + 1);
        } else if s[j] == '\\' {
            if j + 1 < s.len() {
                j = j + 2;
            } else {
                return None;
            }
        } else {
            j = j + 1;
        }
    }
    None
}

/// The characters `s[i..j]` as a string.
pub(crate) fn text_between(s: &Vec<char>, i: usize, j: usize) -> (r: String)
    requires
        i <= j <= s.len(),
    ensures
        r@ == s@.subrange(i as int, j as int),
{
    let mut out = String::new();
    let mut k: usize = i;
    while k < j
        invariant
            i <= k <= j <= s.len(),
            out@ == s@.subrange(i as int, k as int),
        decreases j - k,
    {
        push_char(&mut out, s[k]);
        assert(out@ =~= s@.subrange(i as int, k + 1));
        k = k + 1;
    }
    out
}

/// The token that the scanner commits to at character index `i`, and the
/// character index where it ends.
pub fn scan_at(s: &Vec<char>, i: usize) -> (r: (Token, usize))
    requires
        i < s.len(),
    ensures
        r.1 == end_at(s@, i as int),
        kind_of(r.0) == kind_at(s@, i as int),
        token_text(r.0) == s@.subrange(i as int, r.1 as int),
{
    proof {
        lemma_end_at_advances(s@, i as int);
    }
    let c = s[i];
    let n = s.len();
    if c == '@' {
        let e = scan_at_run(s, i);
        if e - i >= 3 {
            assert(s@.subrange(i as int, e as int) =~= Seq::new((e - i) as nat, |k: int| '@'));
            (Token::AtAtAt(e - i), e)
        } else if e - i == 2 {
            assert(s@.subrange(i as int, e as int) =~= seq!['@', '@']);
            (Token::AtAt, e)
        } else if n - i >= 4 && s[i + 1] == 'e' && s[i + 2] == 'n' && s[i + 3] == 'd' {
            assert(s@.subrange(i as int, i + 4) =~= seq!['@', 'e', 'n', 'd']);
            (Token::AtEnd, i + 4)
        } else {
            assert(s@.subrange(i as int, i + 1) =~= seq!['@']);
            (Token::At, i + 1)
        }
    } else if c == '"' || c == '\\' || atom_char(c) {
        let e = if atom_char(c) {
            Some(scan_atom_run(s, i))
        } else if c == '"' {
            scan_quote(s, i + 1)
        } else if i + 1 < n {
            Some(scan_atom_run(s, i + 2))
        } else {
            None
        };
        match e {
            Some(e) => (Token::Atom(text_between(s, i, e)), e),
            None => {
                assert(s@.subrange(i as int, i + 1) =~= seq![c]);
                (Token::Unknown(c), i + 1)
            },
        }
    } else {
        assert(s@.subrange(i as int, i + 1) =~= seq![c]);
        let token = if c == '#' {
            Token::Hash
        } else if c == '(' {
            Token::ParenOpen
        } else if c == ')' {
            Token::ParenClose
        } else if c == '[' {
            Token::BracketOpen
        } else if c == ']' {
            Token::BracketClose
        } else if c == '{' {
            Token::BraceOpen
        } else if c == '}' {
            Token::BraceClose
        } else if c == '\n' {
            Token::LineBreak
        } else if space_char(c) {
            Token::WhiteSpace(c)
        } else {
            Token::Unknown(c)
        };
        (token, i + 1)
    }
}

proof fn lemma_encode_push(a: Seq<char>, c: char)
    ensures
        encode_utf8(a.push(c)) == encode_utf8(a) + encode_scalar(c as u32),
    decreases a.len(),
{
    if a.len() == 0 {
        let e = Seq::<char>::empty();
        assert(a.push(c).drop_first() =~= e);
        assert(a.push(c)[0] == c);
        assert(encode_utf8(e) == Seq::<u8>::empty());
        assert(encode_utf8(a) == Seq::<u8>::empty());
        assert(encode_utf8(a.push(c)) == encode_scalar(c as u32) + encode_utf8(e));
        assert(encode_utf8(a.push(c)) =~= encode_utf8(a) + encode_scalar(c as u32));
    } else {
        assert(a.push(c).drop_first() =~= a.drop_first().push(c));
        assert(a.push(c)[0] == a[0]);
        lemma_encode_push(a.drop_first(), c);
        assert(encode_utf8(a.push(c)) =~= encode_utf8(a) + encode_scalar(c as u32));
    }
}

proof fn lemma_byte_pos_step(s: Seq<char>, i: int)
    requires
        0 <= i < s.len(),
    ensures
        byte_pos(s, i + 1) == byte_pos(s, i) + encode_scalar(s[i] as u32).len(),
{
    assert(s.subrange(0, i + 1) =~= s.subrange(0, i).push(s[i]));
    lemma_encode_push(s.subrange(0, i), s[i]);
}

proof fn lemma_byte_pos_mono(s: Seq<char>, i: int, j: int)
    requires
        0 <= i <= j <= s.len(),
    ensures
        byte_pos(s, i) <= byte_pos(s, j),
    decreases j - i,
{
    if i < j {
        lemma_byte_pos_step(s, j - 1);
        lemma_byte_pos_mono(s, i, j - 1);
    }
}

/// Number of bytes in the UTF-8 encoding of `c`.
fn utf8_width(c: char) -> (r: usize)
    ensures
        r == encode_scalar(c as u32).len(),
{
    let v = c as u32;
    if v <= 0x7f {
        1
    } else if v <= 0x7ff {
        2
    } else if v <= 0xffff && !(0xd800 <= v && v <= 0xdfff) {
        3
    } else {
        4
    }
}

/// The byte offset of character index `j`, given that of `i`.
fn advance_bytes(s: &Vec<char>, i: usize, j: usize, b: usize) -> (r: usize)
    requires
        i <= j <= s.len(),
        b == byte_pos(s@, i as int),
        encode_utf8(s@).len() <= usize::MAX,
    ensures
        r == byte_pos(s@, j as int),
{
    proof {
        assert(s@.subrange(0, s@.len() as int) =~= s@);
    }
    let mut k: usize = i;
    let mut r: usize = b;
    while k < j
        invariant
            i <= k <= j <= s.len(),
            r == byte_pos(s@, k as int),
            encode_utf8(s@).len() <= usize::MAX,
            byte_pos(s@, s@.len() as int) == encode_utf8(s@).len(),
        decreases j - k,
    {
        proof {
            lemma_byte_pos_step(s@, k as int);
            lemma_byte_pos_mono(s@, k + 1, s@.len() as int);
        }
        r = r + utf8_width(s[k]);
        k = k + 1;
    }
    r
}

/// The token that the scanner commits to at character index `i`, whose byte
/// offset is `b`.
pub fn token_at(s: &Vec<char>, i: usize, b: usize) -> (r: (Spanned, usize))
    requires
        i < s.len(),
        b == byte_pos(s@, i as int),
        encode_utf8(s@).len() <= usize::MAX,
    ensures
        lexed_at(s@, i as int, r.0),
        r.1 == end_at(s@, i as int),
{
    proof {
        lemma_end_at_advances(s@, i as int);
    }
    let (token, e) = scan_at(s, i);
    let end = advance_bytes(s, i, e, b);
    (Spanned { start: b, token, end }, e)
}

/// Tokenizes a sequence of characters whose UTF-8 encoding fits the address space.
pub fn tokenize_chars(s: &Vec<char>) -> (r: Vec<Spanned>)
    requires
        encode_utf8(s@).len() <= usize::MAX,
    ensures
        lexes(s@, r@),
{
    let mut out: Vec<Spanned> = Vec::new();
    let mut i: usize = 0;
    let mut b: usize = 0;
    let ghost mut pos: Seq<int> = seq![0];
    proof {
        assert(s@.subrange(0, 0) =~= Seq::<char>::empty());
    }
    while i < s.len()
        invariant
            i <= s.len(),
            b == byte_pos(s@, i as int),
            encode_utf8(s@).len() <= usize::MAX,
            pos.len() == out.len() + 1,
            pos[0] == 0,
            pos.last() == i,
            forall|k: int| 0 <= k < out.len() ==> #[trigger] step_at(s@, out@, pos, k),
        decreases s.len() - i,
    {
        proof {
            lemma_end_at_advances(s@, i as int);
        }
        let (t, e) = token_at(s, i, b);
        let ghost prev = out@;
        let ghost prev_pos = pos;
        i = e;
        b = t.end;
        out.push(t);
        proof {
            pos = pos.push(i as int);
            assert forall|k: int| 0 <= k < out.len() implies #[trigger] step_at(s@, out@, pos, k) by {
                if k < prev.len() {
                    assert(step_at(s@, prev, prev_pos, k));
                }
            }
        }
    }
    proof {
        assert(lexes_at(s@, out@, pos));
    }
    out
}

/// The tokens of a document.
pub fn tokens_of(text: &str) -> (r: Vec<Spanned>)
    ensures
        lexes(text@, r@),
{
    let bytes = text.as_bytes();
    let n = bytes.len();
    let s = crate::text::chars_of(text);
    assert(encode_utf8(s@).len() == n);
    tokenize_chars(&s)
}

/// Tokenizes a document. Every character is covered by some token, so this
/// never fails.
pub fn tokenize(text: &str) -> (r: Result<Vec<Spanned>, LexError>)
    ensures
        r is Ok,
        lexes(text@, r->Ok_0@),
{
    Ok(tokens_of(text))
}

/// Two tokenizations of the same text agree token by token: same character
/// positions, same spans, same kinds and same text.
pub proof fn lemma_tokenization_unique(
    s: Seq<char>,
    a: Seq<Spanned>,
    pa: Seq<int>,
    b: Seq<Spanned>,
    pb: Seq<int>,
)
    requires
        lexes_at(s, a, pa),
        lexes_at(s, b, pb),
    ensures
        a.len() == b.len(),
        pa == pb,
        forall|k: int|
            0 <= k < a.len() ==> a[k].start == b[k].start && a[k].end == b[k].end && kind_of(
                a[k].token,
            ) == kind_of(b[k].token) && token_text(#[trigger] a[k].token) == token_text(
                b[k].token,
            ),
{
    lemma_positions_agree(s, a, pa, b, pb, 0);
    if a.len() < b.len() {
        assert(step_at(s, b, pb, a.len() as int));
    } else if b.len() < a.len() {
        assert(step_at(s, a, pa, b.len() as int));
    }
    assert(pa =~= pb);
    assert forall|k: int| 0 <= k < a.len() implies a[k].start == b[k].start && a[k].end
        == b[k].end && kind_of(a[k].token) == kind_of(b[k].token) && token_text(
        #[trigger] a[k].token,
    ) == token_text(b[k].token) by {
        assert(step_at(s, a, pa, k));
        assert(step_at(s, b, pb, k));
    }
}

/// Positions agree from index `k` down: if the two sequences agree at `k`, by
/// induction they agree on every index both have.
proof fn lemma_positions_agree(
    s: Seq<char>,
    a: Seq<Spanned>,
    pa: Seq<int>,
    b: Seq<Spanned>,
    pb: Seq<int>,
    k: int,
)
    requires
        lexes_at(s, a, pa),
        lexes_at(s, b, pb),
        0 <= k < pa.len(),
        k < pb.len(),
        forall|m: int| 0 <= m <= k ==> pa[m] == pb[m],
    ensures
        forall|m: int| 0 <= m < pa.len() && m < pb.len() ==> pa[m] == pb[m],
    decreases pa.len() - k,
{
    if k + 1 < pa.len() && k + 1 < pb.len() {
        assert(step_at(s, a, pa, k));
        assert(step_at(s, b, pb, k));
        lemma_positions_agree(s, a, pa, b, pb, k + 1);
    }
}

/// A backslash followed by any character always starts an atom, and that atom
/// holds the escaped character: an escaped sigil never acts as one.
pub proof fn lemma_escape_is_atom(s: Seq<char>, i: int)
    requires
        0 <= i,
        i + 1 < s.len(),
        s[i] == '\\',
    ensures
        kind_at(s, i) == TokenKind::Atom,
        i + 2 <= end_at(s, i) <= s.len(),
{
    lemma_atom_run_bounds(s, i + 2);
}

} // verus!
