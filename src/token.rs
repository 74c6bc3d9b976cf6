//! The scanner: raw text to a flat stream of classified tokens.

use vstd::prelude::*;

verus! {

/// Whether a token is a number or an operator (parentheses included).
#[derive(Debug, Clone, Copy, PartialEq, Eq, Structural)]
pub enum TokenKind {
    TkReserved,
    TkNum,
}

/// A classified lexical unit with the exact text it was scanned from.
#[derive(Debug, Clone, PartialEq, Eq)]
pub struct Token {
    pub token_kind: TokenKind,
    pub val: String,
}

impl View for Token {
    type V = (TokenKind, Seq<char>);

    open spec fn view(&self) -> (TokenKind, Seq<char>) {
        (self.token_kind, self.val@)
    }
}

impl Token {
    pub fn new(token_kind: TokenKind, val: String) -> (r: Token)
        ensures
            r.token_kind == token_kind,
            r.val == val,
    {
        Token { token_kind, val }
    }

    /// A copy of the token, equal to it.
    pub fn duplicate(&self) -> (r: Token)
        ensures
            r == *self,
    {
        Token { token_kind: self.token_kind, val: self.val.clone() }
    }
}

pub open spec fn is_digit(c: char) -> bool {
    '0' <= c && c <= '9'
}

pub open spec fn is_space(c: char) -> bool {
    c == ' ' || c == '\t' || c == '\n' || c == '\r' || c == '\x0C'
}

/// A character that can stand in an operator run.
pub open spec fn is_op_char(c: char) -> bool {
    !is_digit(c) && !is_space(c)
}

pub(crate) fn char_is_digit(c: char) -> (r: bool)
    ensures
        r == is_digit(c),
{
    '0' <= c && c <= '9'
}

fn char_is_space(c: char) -> (r: bool)
    ensures
        r == is_space(c),
{
    c == ' ' || c == '\t' || c == '\n' || c == '\r' || c == '\x0C'
}

/// Index of the first character at or after `i` that is not whitespace.
pub open spec fn skip_spaces(s: Seq<char>, i: nat) -> nat
    decreases s.len() - i,
{
    if i < s.len() && is_space(s[i as int]) {
        skip_spaces(s, i + 1)
    } else {
        i
    }
}

/// End of the run of decimal digits that starts at `i`.
pub open spec fn digits_end(s: Seq<char>, i: nat) -> nat
    decreases s.len() - i,
{
    if i < s.len() && is_digit(s[i as int]) {
        digits_end(s, i + 1)
    } else {
        i
    }
}

/// End of the run of operator characters that starts at `i`.
pub open spec fn op_run_end(s: Seq<char>, i: nat) -> nat
    decreases s.len() - i,
{
    if i < s.len() && is_op_char(s[i as int]) {
        op_run_end(s, i + 1)
    } else {
        i
    }
}

/// The greatest `k`, with `1 <= k <= n`, such that the `k` characters of `s`
/// at `i` spell a word of `ops`; 0 when there is none.
pub open spec fn longest_op(ops: Seq<Seq<char>>, s: Seq<char>, i: nat, n: nat) -> nat
    decreases n,
{
    if n == 0 {
        0
    } else if ops.contains(s.subrange(i as int, (i + n) as int)) {
        n
    } else {
        longest_op(ops, s, i, (n - 1) as nat)
    }
}

pub proof fn lemma_skip_spaces(s: Seq<char>, i: nat)
    requires
        i <= s.len(),
    ensures
        i <= skip_spaces(s, i) <= s.len(),
        forall|j: int| i <= j < skip_spaces(s, i) ==> is_space(#[trigger] s[j]),
        skip_spaces(s, i) < s.len() ==> !is_space(s[skip_spaces(s, i) as int]),
    decreases s.len() - i,
{
    if i < s.len() && is_space(s[i as int]) {
        lemma_skip_spaces(s, i + 1);
    }
}

pub proof fn lemma_digits_end(s: Seq<char>, i: nat)
    requires
        i <= s.len(),
    ensures
        i <= digits_end(s, i) <= s.len(),
        forall|j: int| i <= j < digits_end(s, i) ==> is_digit(#[trigger] s[j]),
        digits_end(s, i) < s.len() ==> !is_digit(s[digits_end(s, i) as int]),
    decreases s.len() - i,
{
    if i < s.len() && is_digit(s[i as int]) {
        lemma_digits_end(s, i + 1);
    }
}

pub proof fn lemma_op_run_end(s: Seq<char>, i: nat)
    requires
        i <= s.len(),
    ensures
        i <= op_run_end(s, i) <= s.len(),
        forall|j: int| i <= j < op_run_end(s, i) ==> is_op_char(#[trigger] s[j]),
        op_run_end(s, i) < s.len() ==> !is_op_char(s[op_run_end(s, i) as int]),
    decreases s.len() - i,
{
    if i < s.len() && is_op_char(s[i as int]) {
        lemma_op_run_end(s, i + 1);
    }
}

pub proof fn lemma_longest_op(ops: Seq<Seq<char>>, s: Seq<char>, i: nat, n: nat)
    ensures
        longest_op(ops, s, i, n) <= n,
        longest_op(ops, s, i, n) > 0 ==> ops.contains(
            s.subrange(i as int, (i + longest_op(ops, s, i, n)) as int),
        ),
        forall|k: nat|
            longest_op(ops, s, i, n) < k <= n ==> !ops.contains(
                #[trigger] s.subrange(i as int, (i + k) as int),
            ),
    decreases n,
{
    if n > 0 && !ops.contains(s.subrange(i as int, (i + n) as int)) {
        lemma_longest_op(ops, s, i, (n - 1) as nat);
    }
}

/// Pieces longer than every word of `ops` never match, so the search may
/// start at the length of the longest word.
proof fn lemma_longest_op_cap(ops: Seq<Seq<char>>, s: Seq<char>, i: nat, n: nat, m: nat)
    requires
        m <= n,
        i + n <= s.len(),
        forall|j: int| 0 <= j < ops.len() ==> (#[trigger] ops[j]).len() <= m,
    ensures
        longest_op(ops, s, i, n) == longest_op(ops, s, i, m),
    decreases n,
{
    if n > m {
        if ops.contains(s.subrange(i as int, (i + n) as int)) {
            let j = choose|j: int| 0 <= j < ops.len() && ops[j] == s.subrange(i as int, (i + n) as int);
            assert(ops[j].len() == n);
        }
        lemma_longest_op_cap(ops, s, i, (n - 1) as nat, m);
    }
}

/// Puts the tokens `toks` before the outcome of scanning the rest.
pub open spec fn prepend_tokens(
    toks: Seq<(TokenKind, Seq<char>)>,
    rest: Result<Seq<(TokenKind, Seq<char>)>, nat>,
) -> Result<Seq<(TokenKind, Seq<char>)>, nat> {
    match rest {
        Ok(more) => Ok(toks + more),
        Err(p) => Err(p),
    }
}

/// The tokens of `s` from index `i` on, under the operator vocabulary `ops`;
/// or the index of the first operator run that starts with no word of `ops`.
///
/// Whitespace is skipped; a digit starts a number that takes every digit
/// that follows; any other character starts an operator run, of which the
/// longest prefix that is a word of `ops` is taken.
pub open spec fn scan_from(ops: Seq<Seq<char>>, s: Seq<char>, i: nat) -> Result<
    Seq<(TokenKind, Seq<char>)>,
    nat,
>
    decreases s.len() - i,
{
    let p = skip_spaces(s, i);
    if i > s.len() || p >= s.len() {
        Ok(Seq::empty())
    } else if is_digit(s[p as int]) {
        let e = digits_end(s, p);
        proof {
            lemma_skip_spaces(s, i);
            lemma_digits_end(s, p);
            lemma_digits_end(s, p + 1);
        }
        prepend_tokens(seq![(TokenKind::TkNum, s.subrange(p as int, e as int))], scan_from(ops, s, e))
    } else {
        let k = longest_op(ops, s, p, (op_run_end(s, p) - p) as nat);
        if k == 0 {
            Err(p)
        } else {
            proof {
                lemma_skip_spaces(s, i);
                lemma_op_run_end(s, p);
                lemma_longest_op(ops, s, p, (op_run_end(s, p) - p) as nat);
            }
            prepend_tokens(
                seq![(TokenKind::TkReserved, s.subrange(p as int, (p + k) as int))],
                scan_from(ops, s, p + k),
            )
        }
    }
}

/// The outcome of scanning all of `s`.
pub open spec fn scan_spec(ops: Seq<Seq<char>>, s: Seq<char>) -> Result<
    Seq<(TokenKind, Seq<char>)>,
    nat,
> {
    scan_from(ops, s, 0)
}

/// The operator vocabulary of the language.
pub open spec fn standard_words() -> Seq<Seq<char>> {
    seq![
        "+"@, "-"@, "*"@, "/"@, "=="@, "!="@, "<"@, "<="@, ">"@, ">="@, "("@, ")"@,
    ]
}

/// An operator vocabulary: the spellings the scanner accepts as operators.
#[derive(Debug, Clone)]
pub struct OpWords {
    op_words: Vec<String>,
    max_length: usize,
}

impl OpWords {
    /// The words, in the order they were given.
    pub closed spec fn words(&self) -> Seq<Seq<char>> {
        self.op_words@.map_values(|w: String| w@)
    }

    /// No word is longer than the recorded maximum.
    pub closed spec fn wf(&self) -> bool {
        forall|j: int| 0 <= j < self.words().len() ==> (#[trigger] self.words()[j]).len() <= self.max_length
    }

    pub fn new(op_words: Vec<&str>) -> (r: Self)
        ensures
            r.wf(),
            r.words() == op_words@.map_values(|w: &str| w@),
    {
        let mut words: Vec<String> = Vec::new();
        let mut max_length: usize = 0;
        let mut i: usize = 0;
        while i < op_words.len()
            invariant
                i <= op_words.len(),
                words@.len() == i,
                forall|j: int| 0 <= j < i ==> (#[trigger] words@[j])@ == op_words@[j]@,
                forall|j: int| 0 <= j < i ==> (#[trigger] words@[j])@.len() <= max_length,
            decreases op_words.len() - i,
        {
            let w: &str = op_words[i];
            let len = w.unicode_len();
            if len > max_length {
                max_length = len;
            }
            words.push(String::from_str(w));
            i += 1;
        }
        let r = OpWords { op_words: words, max_length };
        assert(r.words() =~= op_words@.map_values(|w: &str| w@));
        r
    }

    /// Whether `x` is one of the words.
    fn contains_string(&self, x: &String) -> (r: bool)
        ensures
            r == self.words().contains(x@),
    {
        let mut i: usize = 0;
        while i < self.op_words.len()
            invariant
                i <= self.op_words.len(),
                forall|j: int| 0 <= j < i ==> (#[trigger] self.words()[j]) != x@,
            decreases self.op_words.len() - i,
        {
            if self.op_words[i] == *x {
                assert(self.words()[i as int] == x@);
                return true;
            }
            i += 1;
        }
        false
    }

    /// Whether `x` is one of the words.
    pub fn contains(&self, x: &str) -> (r: bool)
        ensures
            r == self.words().contains(x@),
    {
        let owned = String::from_str(x);
        self.contains_string(&owned)
    }

    /// The words of `len` characters, in order.
    pub fn ops(&self, len: usize) -> (r: Vec<String>)
        ensures
            r@.map_values(|w: String| w@) == self.words().filter(|w: Seq<char>| w.len() == len),
    {
        let mut out: Vec<String> = Vec::new();
        let mut i: usize = 0;
        while i < self.op_words.len()
            invariant
                i <= self.op_words.len(),
                out@.map_values(|w: String| w@) == self.words().take(i as int).filter(|v: Seq<char>| v.len() == len),
            decreases self.op_words.len() - i,
        {
            let w = &self.op_words[i];
            let ghost before = out@.map_values(|w: String| w@);
            assert(self.words().take(i + 1).drop_last() =~= self.words().take(i as int));
            assert(self.words().take(i + 1).last() == w@);
            proof {
                reveal(Seq::filter);
            }
            let ghost after = self.words().take(i + 1).filter(|v: Seq<char>| v.len() == len);
            assert(after == if w@.len() == len { self.words().take(i as int).filter(|v: Seq<char>| v.len() == len).push(w@) } else {
                self.words().take(i as int).filter(|v: Seq<char>| v.len() == len)
            });
            if w.as_str().unicode_len() == len {
                out.push(w.clone());
                assert(out@.map_values(|w: String| w@) =~= before.push(w@));
            }
            assert(out@.map_values(|w: String| w@) == after);
            i += 1;
        }
        assert(self.words().take(self.op_words.len() as int) =~= self.words());
        out
    }
}

impl Default for OpWords {
    fn default() -> (r: Self)
        ensures
            r.wf(),
            r.words() == standard_words(),
    {
        let r = OpWords::new(vec!["+", "-", "*", "/", "==", "!=", "<", "<=", ">", ">=", "(", ")"]);
        assert(r.words() =~= standard_words());
        r
    }
}

/// An operator run that starts with no word of the vocabulary.
#[derive(Debug, Clone, PartialEq, Eq)]
pub struct LexError {
    /// Index, in characters, where the run starts.
    pub position: usize,
    /// The whole run.
    pub text: String,
}

/// The views of a sequence of tokens.
pub open spec fn token_views(v: Seq<Token>) -> Seq<(TokenKind, Seq<char>)> {
    v.map_values(|t: Token| t@)
}

/// `r` is what scanning `s` under `ops` gives: the same tokens, or an error
/// at the same place that holds the offending run.
pub open spec fn scan_matches(r: Result<Vec<Token>, LexError>, ops: Seq<Seq<char>>, s: Seq<char>) -> bool {
    match r {
        Ok(v) => scan_spec(ops, s) == Ok::<Seq<(TokenKind, Seq<char>)>, nat>(token_views(v@)),
        Err(e) => scan_spec(ops, s) == Err::<Seq<(TokenKind, Seq<char>)>, nat>(e.position as nat)
            && e.text@ == s.subrange(e.position as int, op_run_end(s, e.position as nat) as int),
    }
}

fn chars_of(s: &str) -> (r: Vec<char>)
    ensures
        r@ == s@,
{
    let n = s.unicode_len();
    let mut out: Vec<char> = Vec::new();
    let mut i: usize = 0;
    while i < n
        invariant
            n == s@.len(),
            i <= n,
            out@ == s@.take(i as int),
        decreases n - i,
    {
        out.push(s.get_char(i));
        i += 1;
        assert(out@ =~= s@.take(i as int));
    }
    assert(out@ =~= s@);
    out
}

/// Splits `s` into tokens, taking operators from `ops` by longest match.
pub fn scan(s: &str, ops: &OpWords) -> (r: Result<Vec<Token>, LexError>)
    requires
        ops.wf(),
    ensures
        scan_matches(r, ops.words(), s@),
{
    let ghost w = ops.words();
    let chars = chars_of(s);
    let n = chars.len();
    let mut tokens: Vec<Token> = Vec::new();
    let mut i: usize = 0;
    loop
        invariant
            chars@ == s@,
            n == s@.len(),
            i <= n,
            ops.wf(),
            w == ops.words(),
            scan_spec(w, s@) == prepend_tokens(token_views(tokens@), scan_from(w, s@, i as nat)),
        decreases n - i,
    {
        proof {
            lemma_skip_spaces(s@, i as nat);
        }
        let mut p = i;
        while p < n && char_is_space(chars[p])
            invariant
                chars@ == s@,
                n == s@.len(),
                i <= p <= n,
                skip_spaces(s@, i as nat) == skip_spaces(s@, p as nat),
            decreases n - p,
        {
            p += 1;
        }
        let ghost before = token_views(tokens@);
        if p >= n {
            assert(scan_from(w, s@, i as nat) == Ok::<Seq<(TokenKind, Seq<char>)>, nat>(Seq::empty()));
            assert(before + Seq::empty() =~= before);
            return Ok(tokens);
        }
        if char_is_digit(chars[p]) {
            let mut e = p + 1;
            while e < n && char_is_digit(chars[e])
                invariant
                    chars@ == s@,
                    n == s@.len(),
                    p < e <= n,
                    digits_end(s@, p as nat) == digits_end(s@, e as nat),
                decreases n - e,
            {
                e += 1;
            }
            proof {
                lemma_digits_end(s@, p as nat);
            }
            let text = String::from_str(s.substring_char(p, e));
            let tok = Token::new(TokenKind::TkNum, text);
            tokens.push(tok);
            proof {
                let t = seq![(TokenKind::TkNum, s@.subrange(p as int, e as int))];
                assert(token_views(tokens@) =~= before + t);
                assert(scan_from(w, s@, i as nat) == prepend_tokens(t, scan_from(w, s@, e as nat)));
                match scan_from(w, s@, e as nat) {
                    Ok(more) => {
                        assert(before + (t + more) =~= (before + t) + more);
                    },
                    Err(_) => {},
                }
            }
            i = e;
        } else {
            let mut e = p + 1;
            while e < n && !char_is_digit(chars[e]) && !char_is_space(chars[e])
                invariant
                    chars@ == s@,
                    n == s@.len(),
                    p < e <= n,
                    op_run_end(s@, p as nat) == op_run_end(s@, e as nat),
                decreases n - e,
            {
                e += 1;
            }
            proof {
                lemma_op_run_end(s@, p as nat);
            }
            let run = e - p;
            let mut k: usize = if ops.max_length < run { ops.max_length } else { run };
            if k < run {
                proof {
                    lemma_longest_op_cap(w, s@, p as nat, run as nat, k as nat);
                }
            }
            let mut found = false;
            while k > 0 && !found
                invariant
                    k <= run,
                    run == e - p,
                    e <= n,
                    n == s@.len(),
                    w == ops.words(),
                    longest_op(w, s@, p as nat, run as nat) == longest_op(w, s@, p as nat, k as nat),
                    found ==> k > 0 && w.contains(s@.subrange(p as int, (p + k) as int)),
                decreases k + (if found { 0int } else { 1int }),
            {
                let piece = String::from_str(s.substring_char(p, p + k));
                if ops.contains_string(&piece) {
                    found = true;
                } else {
                    k -= 1;
                }
            }
            if k == 0 {
                let text = String::from_str(s.substring_char(p, e));
                return Err(LexError { position: p, text });
            }
            proof {
                lemma_longest_op(w, s@, p as nat, run as nat);
            }
            let text = String::from_str(s.substring_char(p, p + k));
            let tok = Token::new(TokenKind::TkReserved, text);
            tokens.push(tok);
            proof {
                let t = seq![(TokenKind::TkReserved, s@.subrange(p as int, (p + k) as int))];
                assert(token_views(tokens@) =~= before + t);
                assert(scan_from(w, s@, i as nat) == prepend_tokens(t, scan_from(w, s@, (p + k) as nat)));
                match scan_from(w, s@, (p + k) as nat) {
                    Ok(more) => {
                        assert(before + (t + more) =~= (before + t) + more);
                    },
                    Err(_) => {},
                }
            }
            i = p + k;
        }
    }
}

/// A scanned token stream with a cursor: the parser looks at the token under
/// the cursor and moves past it.
#[derive(Debug, Clone)]
pub struct TokenIter {
    tokens: Vec<Token>,
    pos: usize,
}

impl TokenIter {
    /// All tokens of the stream, those already passed included.
    pub closed spec fn toks(&self) -> Seq<(TokenKind, Seq<char>)> {
        token_views(self.tokens@)
    }

    /// Index of the token under the cursor.
    pub closed spec fn pos(&self) -> int {
        self.pos as int
    }

    pub open spec fn wf(&self) -> bool {
        0 <= self.pos() <= self.toks().len()
    }

    /// A stream over `tokens`, with the cursor on the first.
    pub fn from_tokens(tokens: Vec<Token>) -> (r: TokenIter)
        ensures
            r.wf(),
            r.toks() == token_views(tokens@),
            r.pos() == 0,
    {
        TokenIter { tokens, pos: 0 }
    }

    /// Index of the token under the cursor.
    pub fn position(&self) -> (r: usize)
        ensures
            r == self.pos(),
    {
        self.pos
    }

    /// The token under the cursor, if the stream is not exhausted.
    pub fn peek(&self) -> (r: Option<&Token>)
        requires
            self.wf(),
        ensures
            match r {
                Some(t) => self.pos() < self.toks().len() && t@ == self.toks()[self.pos()],
                None => self.pos() == self.toks().len(),
            },
    {
        if self.pos < self.tokens.len() {
            Some(&self.tokens[self.pos])
        } else {
            None
        }
    }

    /// The token under the cursor, moving the cursor past it.
    pub fn next(&mut self) -> (r: Option<Token>)
        requires
            old(self).wf(),
        ensures
            final(self).wf(),
            final(self).toks() == old(self).toks(),
            match r {
                Some(t) => old(self).pos() < old(self).toks().len() && t@ == old(self).toks()[old(
                    self,
                ).pos()] && final(self).pos() == old(self).pos() + 1,
                None => old(self).pos() == old(self).toks().len() && final(self).pos() == old(
                    self,
                ).pos(),
            },
    {
        if self.pos < self.tokens.len() {
            let t = self.tokens[self.pos].duplicate();
            self.pos = self.pos + 1;
            Some(t)
        } else {
            None
        }
    }
}

/// `r` is what scanning `s` under the standard vocabulary gives: a stream
/// of its tokens with the cursor on the first, or the scanner's error.
pub open spec fn tokenize_matches(r: Result<TokenIter, LexError>, s: Seq<char>) -> bool {
    match r {
        Ok(it) => it.wf() && it.pos() == 0 && scan_spec(standard_words(), s) == Ok::<
            Seq<(TokenKind, Seq<char>)>,
            nat,
        >(it.toks()),
        Err(e) => scan_spec(standard_words(), s) == Err::<Seq<(TokenKind, Seq<char>)>, nat>(
            e.position as nat,
        ) && e.text@ == s.subrange(e.position as int, op_run_end(s, e.position as nat) as int),
    }
}

/// Scans `s` under the standard vocabulary.
pub fn tokenize_str(s: &str) -> (r: Result<TokenIter, LexError>)
    ensures
        tokenize_matches(r, s@),
{
    let ops = OpWords::default();
    match scan(s, &ops) {
        Ok(tokens) => Ok(TokenIter::from_tokens(tokens)),
        Err(e) => Err(e),
    }
}

/// Text that can be scanned into tokens.
pub trait TokenExt {
    spec fn text(&self) -> Seq<char>;

    fn tokenize(&self) -> (r: Result<TokenIter, LexError>)
        ensures
            tokenize_matches(r, self.text()),
    ;
}

impl TokenExt for String {
    open spec fn text(&self) -> Seq<char> {
        self@
    }

    fn tokenize(&self) -> (r: Result<TokenIter, LexError>) {
        tokenize_str(self.as_str())
    }
}

/// Whether `t` is the operator `op`.
pub open spec fn is_reserved(t: (TokenKind, Seq<char>), op: Seq<char>) -> bool {
    t.0 == TokenKind::TkReserved && t.1 == op
}

/// Moves past the token under the cursor when it is the operator `op`, and
/// says whether it did.
pub fn consume(op: &str, iter: &mut TokenIter) -> (r: bool)
    requires
        old(iter).wf(),
    ensures
        final(iter).wf(),
        final(iter).toks() == old(iter).toks(),
        r == (old(iter).pos() < old(iter).toks().len() && is_reserved(
            old(iter).toks()[old(iter).pos()],
            op@,
        )),
        final(iter).pos() == old(iter).pos() + if r { 1int } else { 0int },
{
    let hit = match iter.peek() {
        Some(t) => {
            if t.token_kind == TokenKind::TkReserved {
                let want = String::from_str(op);
                t.val == want
            } else {
                false
            }
        },
        None => false,
    };
    if hit {
        iter.next();
    }
    hit
}

proof fn lemma_digits_to_end(s: Seq<char>, i: nat)
    requires
        i <= s.len(),
        forall|j: int| 0 <= j < s.len() ==> is_digit(#[trigger] s[j]),
    ensures
        digits_end(s, i) == s.len(),
    decreases s.len() - i,
{
    if i < s.len() {
        lemma_digits_to_end(s, i + 1);
    }
}

/// A nonempty string of decimal digits scans, under any vocabulary, to a
/// single number token whose text is the whole string.
pub proof fn lemma_digits_scan_to_one_number(ops: Seq<Seq<char>>, s: Seq<char>)
    requires
        s.len() > 0,
        forall|j: int| 0 <= j < s.len() ==> is_digit(#[trigger] s[j]),
    ensures
        scan_spec(ops, s) == Ok::<Seq<(TokenKind, Seq<char>)>, nat>(seq![(TokenKind::TkNum, s)]),
{
    assert(is_digit(s[0]));
    assert(skip_spaces(s, 0) == 0);
    lemma_digits_to_end(s, 0);
    assert(skip_spaces(s, s.len()) == s.len());
    assert(scan_from(ops, s, s.len()) == Ok::<Seq<(TokenKind, Seq<char>)>, nat>(Seq::empty()));
    assert(s.subrange(0, s.len() as int) =~= s);
    assert(seq![(TokenKind::TkNum, s)] + Seq::<(TokenKind, Seq<char>)>::empty() =~= seq![(TokenKind::TkNum, s)]);
}

} // verus!
