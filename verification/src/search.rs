//! The tag query language of the test dashboard: terms joined by `.` (and),
//! `,` (or), prefixed by `!` (not), grouped by parentheses. A term matches a
//! card when one of its tags contains the term.

use vstd::prelude::*;
use crate::text::chars_of;

verus! {

/// A lexical unit of a query.
pub enum Symbol {
    Term(String),
    Not,
    And,
    Or,
    Open,
    Close,
}

/// The mathematical form of a [`Symbol`].
pub enum Token {
    Term(Seq<char>),
    Not,
    And,
    Or,
    Open,
    Close,
}

impl View for Symbol {
    type V = Token;

    open spec fn view(&self) -> Token {
        match self {
            Symbol::Term(t) => Token::Term(t@),
            Symbol::Not => Token::Not,
            Symbol::And => Token::And,
            Symbol::Or => Token::Or,
            Symbol::Open => Token::Open,
            Symbol::Close => Token::Close,
        }
    }
}

/// The tokens of a list of symbols.
pub open spec fn tokens_of(symbols: Seq<Symbol>) -> Seq<Token> {
    symbols.map_values(|s: Symbol| s@)
}

/// A separator between terms that yields no token.
pub open spec fn is_blank(c: char) -> bool {
    c == ' ' || c == '\t'
}

/// A character that is a token by itself.
pub open spec fn is_operator(c: char) -> bool {
    c == '!' || c == '.' || c == ',' || c == '(' || c == ')'
}

/// A character that ends a term.
pub open spec fn is_break(c: char) -> bool {
    is_blank(c) || is_operator(c)
}

/// The token of an operator character.
pub open spec fn operator_token(c: char) -> Token {
    if c == '!' {
        Token::Not
    } else if c == '.' {
        Token::And
    } else if c == ',' {
        Token::Or
    } else if c == '(' {
        Token::Open
    } else {
        Token::Close
    }
}

/// Where the term that starts at `i` ends: the first break at or after `i`.
pub open spec fn term_end(s: Seq<char>, i: int) -> int
    decreases s.len() - i,
{
    if i < 0 || i >= s.len() || is_break(s[i]) {
        i
    } else {
        term_end(s, i + 1)
    }
}

pub proof fn lemma_term_end(s: Seq<char>, i: int)
    requires
        0 <= i <= s.len(),
    ensures
        i <= term_end(s, i) <= s.len(),
        i < s.len() && !is_break(s[i]) ==> term_end(s, i) > i,
        forall|k: int| i <= k < term_end(s, i) ==> !is_break(#[trigger] s[k]),
        term_end(s, i) < s.len() ==> is_break(s[term_end(s, i)]),
    decreases s.len() - i,
{
    if i < s.len() && !is_break(s[i]) {
        lemma_term_end(s, i + 1);
    }
}

/// The tokens of `s` from position `i` on.
pub open spec fn tokens_from(s: Seq<char>, i: int) -> Seq<Token>
    decreases s.len() - i,
{
    if i < 0 || i >= s.len() {
        seq![]
    } else if is_blank(s[i]) {
        tokens_from(s, i + 1)
    } else if is_operator(s[i]) {
        seq![operator_token(s[i])] + tokens_from(s, i + 1)
    } else {
        let j = term_end(s, i);
        proof {
            lemma_term_end(s, i);
        }
        seq![Token::Term(s.subrange(i, j))] + tokens_from(s, j)
    }
}

/// The tokens of a query.
pub open spec fn tokenized(s: Seq<char>) -> Seq<Token> {
    tokens_from(s, 0)
}

/// Splits a query into symbols.
pub fn tokenize(input: &str) -> (symbols: Vec<Symbol>)
    ensures
        tokens_of(symbols@) == tokenized(input@),
{
    let chars = chars_of(input);
    tokenize_chars(&chars)
}

/// Splits the characters of a query into symbols.
pub fn tokenize_chars(chars: &Vec<char>) -> (symbols: Vec<Symbol>)
    ensures
        tokens_of(symbols@) == tokenized(chars@),
{
    let ghost s = chars@;
    let mut symbols: Vec<Symbol> = Vec::new();
    let mut i: usize = 0;
    while i < chars.len()
        invariant
            s == chars@,
            0 <= i <= chars.len(),
            tokens_of(symbols@) + tokens_from(s, i as int) == tokenized(s),
        decreases chars.len() - i,
    {
        let c = chars[i];
        if c == ' ' || c == '\t' {
            i = i + 1;
        } else if c == '!' || c == '.' || c == ',' || c == '(' || c == ')' {
            let symbol = if c == '!' {
                Symbol::Not
            } else if c == '.' {
                Symbol::And
            } else if c == ',' {
                Symbol::Or
            } else if c == '(' {
                Symbol::Open
            } else {
                Symbol::Close
            };
            let ghost before = symbols@;
            symbols.push(symbol);
            assert(tokens_of(symbols@) =~= tokens_of(before).push(operator_token(c)));
            assert(tokens_of(symbols@) + tokens_from(s, i + 1) =~= tokens_of(before)
                + tokens_from(s, i as int));
            i = i + 1;
        } else {
            proof {
                lemma_term_end(s, i as int);
            }
            let mut term: Vec<char> = Vec::new();
            let mut j: usize = i;
            while j < chars.len() && !(chars[j] == ' ' || chars[j] == '\t' || chars[j] == '!'
                || chars[j] == '.' || chars[j] == ',' || chars[j] == '(' || chars[j] == ')')
                invariant
                    s == chars@,
                    i <= j <= term_end(s, i as int),
                    term_end(s, i as int) <= chars.len(),
                    term@ == s.subrange(i as int, j as int),
                    forall|k: int| i <= k < term_end(s, i as int) ==> !is_break(#[trigger] s[k]),
                    term_end(s, i as int) < s.len() ==> is_break(s[term_end(s, i as int)]),
                decreases chars.len() - j,
            {
                term.push(chars[j]);
                j = j + 1;
                assert(term@ =~= s.subrange(i as int, j as int));
            }
            assert(j == term_end(s, i as int));
            let word = crate::text::string_of(&term);
            let ghost before = symbols@;
            symbols.push(Symbol::Term(word));
            assert(tokens_of(symbols@) =~= tokens_of(before).push(
                Token::Term(s.subrange(i as int, j as int)),
            ));
            assert(tokens_of(symbols@) + tokens_from(s, j as int) =~= tokens_of(before)
                + tokens_from(s, i as int));
            i = j;
        }
    }
    assert(tokens_of(symbols@) =~= tokens_of(symbols@) + tokens_from(s, i as int));
    symbols
}


/// Whether `needle` occurs in `hay` as a contiguous run of characters.
pub open spec fn occurs(hay: Seq<char>, needle: Seq<char>) -> bool {
    exists|i: int| 0 <= i && i + needle.len() <= hay.len() && #[trigger] hay.subrange(i, i + needle.len()) == needle
}

/// Whether some tag contains `term`.
pub open spec fn matched(tags: Seq<Seq<char>>, term: Seq<char>) -> bool {
    exists|k: int| 0 <= k < tags.len() && occurs(#[trigger] tags[k], term)
}

fn contains_at(hay: &Vec<char>, needle: &Vec<char>, at: usize) -> (r: bool)
    requires
        at + needle.len() <= hay.len(),
    ensures
        r == (hay@.subrange(at as int, at + needle.len()) == needle@),
{
    let mut k: usize = 0;
    while k < needle.len()
        invariant
            0 <= k <= needle.len(),
            at + needle.len() <= hay.len(),
            forall|m: int| 0 <= m < k ==> hay@[at + m] == needle@[m],
        decreases needle.len() - k,
    {
        if hay[at + k] != needle[k] {
            assert(hay@.subrange(at as int, at + needle.len())[k as int] != needle@[k as int]);
            return false;
        }
        k = k + 1;
    }
    assert(hay@.subrange(at as int, at + needle.len()) =~= needle@);
    true
}

/// Whether `needle` occurs in `hay`.
pub fn occurs_in(hay: &Vec<char>, needle: &Vec<char>) -> (r: bool)
    ensures
        r == occurs(hay@, needle@),
{
    if needle.len() > hay.len() {
        return false;
    }
    let limit = hay.len() - needle.len();
    let mut at: usize = 0;
    while at < limit
        invariant
            needle.len() <= hay.len(),
            limit == hay.len() - needle.len(),
            at <= limit,
            forall|i: int| 0 <= i < at ==> #[trigger] hay@.subrange(i, i + needle.len()) != needle@,
        decreases limit - at,
    {
        if contains_at(hay, needle, at) {
            return true;
        }
        at = at + 1;
    }
    contains_at(hay, needle, limit)
}

/// Whether some tag contains `term`.
pub fn any_contains(tags: &[&str], term: &Vec<char>) -> (r: bool)
    ensures
        r == matched(tags@.map_values(|t: &str| t@), term@),
{
    let ghost views = tags@.map_values(|t: &str| t@);
    let mut k: usize = 0;
    while k < tags.len()
        invariant
            0 <= k <= tags.len(),
            views == tags@.map_values(|t: &str| t@),
            forall|m: int| 0 <= m < k ==> !occurs(#[trigger] views[m], term@),
        decreases tags.len() - k,
    {
        let chars = chars_of(tags[k]);
        if occurs_in(&chars, term) {
            assert(occurs(views[k as int], term@));
            return true;
        }
        k = k + 1;
    }
    false
}

/// A `(result, next position)` pair of the query evaluator.
pub type Outcome = (bool, int);

/// A factor: a term, a parenthesised query, or any other symbol, which
/// holds. Past the end of the symbols it holds and consumes nothing.
pub open spec fn atom(tags: Seq<Seq<char>>, s: Seq<Token>, p: int) -> Outcome
    decreases s.len() - p, 0int,
{
    if p < 0 || p >= s.len() {
        (true, p)
    } else {
        match s[p] {
            Token::Open => {
                let (r, q) = disjunction(tags, s, p + 1);
                if 0 <= q < s.len() && s[q] is Close {
                    (r, q + 1)
                } else {
                    (r, q)
                }
            },
            Token::Term(t) => (matched(tags, t), p + 1),
            _ => (true, p + 1),
        }
    }
}

/// A factor preceded by any number of `!`, each of which negates it.
pub open spec fn negation(tags: Seq<Seq<char>>, s: Seq<Token>, p: int) -> Outcome
    decreases s.len() - p, 1int,
{
    if 0 <= p < s.len() && s[p] is Not {
        let (r, q) = negation(tags, s, p + 1);
        (!r, q)
    } else {
        atom(tags, s, p)
    }
}

/// Further `.`-joined negations after a first one whose value is `acc`.
pub open spec fn conjunction_rest(tags: Seq<Seq<char>>, s: Seq<Token>, acc: bool, q: int) -> Outcome
    decreases s.len() - q, 2int,
{
    if 0 <= q < s.len() && s[q] is And {
        let (r, next) = negation(tags, s, q + 1);
        if q < next <= s.len() {
            conjunction_rest(tags, s, acc && r, next)
        } else {
            (acc && r, next)
        }
    } else {
        (acc, q)
    }
}

/// Negations joined by `.`: all of them hold.
pub open spec fn conjunction(tags: Seq<Seq<char>>, s: Seq<Token>, p: int) -> Outcome
    decreases s.len() - p, 3int,
{
    let (r, q) = negation(tags, s, p);
    if p <= q <= s.len() {
        conjunction_rest(tags, s, r, q)
    } else {
        (r, q)
    }
}

/// Further `,`-joined conjunctions after a first one whose value is `acc`.
pub open spec fn disjunction_rest(tags: Seq<Seq<char>>, s: Seq<Token>, acc: bool, q: int) -> Outcome
    decreases s.len() - q, 4int,
{
    if 0 <= q < s.len() && s[q] is Or {
        let (r, next) = conjunction(tags, s, q + 1);
        if q < next <= s.len() {
            disjunction_rest(tags, s, acc || r, next)
        } else {
            (acc || r, next)
        }
    } else {
        (acc, q)
    }
}

/// Conjunctions joined by `,`: one of them holds.
pub open spec fn disjunction(tags: Seq<Seq<char>>, s: Seq<Token>, p: int) -> Outcome
    decreases s.len() - p, 5int,
{
    let (r, q) = conjunction(tags, s, p);
    if p <= q <= s.len() {
        disjunction_rest(tags, s, r, q)
    } else {
        (r, q)
    }
}


/// The values of the tags.
pub open spec fn tag_views(tags: Seq<&str>) -> Seq<Seq<char>> {
    tags.map_values(|t: &str| t@)
}

/// The value and next position of the factor at `p`.
pub fn evaluate_atom(tags: &[&str], symbols: &Vec<Symbol>, p: usize) -> (o: (bool, usize))
    requires
        p <= symbols.len(),
    ensures
        (o.0, o.1 as int) == atom(tag_views(tags@), tokens_of(symbols@), p as int),
        p <= o.1 <= symbols.len(),
    decreases symbols.len() - p, 0int,
{
    let ghost s = tokens_of(symbols@);
    if p >= symbols.len() {
        return (true, p);
    }
    assert(s[p as int] == symbols@[p as int]@);
    match &symbols[p] {
        Symbol::Open => {
            let (r, q) = evaluate_disjunction(tags, symbols, p + 1);
            if q < symbols.len() && matches!(symbols[q], Symbol::Close) {
                assert(s[q as int] == symbols@[q as int]@);
                (r, q + 1)
            } else {
                proof {
                    if q < symbols.len() {
                        assert(s[q as int] == symbols@[q as int]@);
                    }
                }
                (r, q)
            }
        },
        Symbol::Term(term) => {
            let chars = chars_of(term.as_str());
            (any_contains(tags, &chars), p + 1)
        },
        _ => (true, p + 1),
    }
}

/// The value and next position of the negation at `p`.
pub fn evaluate_negation(tags: &[&str], symbols: &Vec<Symbol>, p: usize) -> (o: (bool, usize))
    requires
        p <= symbols.len(),
    ensures
        (o.0, o.1 as int) == negation(tag_views(tags@), tokens_of(symbols@), p as int),
        p <= o.1 <= symbols.len(),
    decreases symbols.len() - p, 1int,
{
    let ghost s = tokens_of(symbols@);
    if p < symbols.len() && matches!(symbols[p], Symbol::Not) {
        assert(s[p as int] == symbols@[p as int]@);
        let (r, q) = evaluate_negation(tags, symbols, p + 1);
        (!r, q)
    } else {
        proof {
            if p < symbols.len() {
                assert(s[p as int] == symbols@[p as int]@);
            }
        }
        evaluate_atom(tags, symbols, p)
    }
}

/// The value and next position of the conjunction at `p`.
pub fn evaluate_conjunction(tags: &[&str], symbols: &Vec<Symbol>, p: usize) -> (o: (bool, usize))
    requires
        p <= symbols.len(),
    ensures
        (o.0, o.1 as int) == conjunction(tag_views(tags@), tokens_of(symbols@), p as int),
        p <= o.1 <= symbols.len(),
    decreases symbols.len() - p, 3int,
{
    let ghost t = tag_views(tags@);
    let ghost s = tokens_of(symbols@);
    let (first, next) = evaluate_negation(tags, symbols, p);
    let mut result = first;
    let mut q = next;
    while q < symbols.len() && matches!(symbols[q], Symbol::And)
        invariant
            t == tag_views(tags@),
            s == tokens_of(symbols@),
            p <= q <= symbols.len(),
            conjunction(t, s, p as int) == conjunction_rest(t, s, result, q as int),
        decreases symbols.len() - q,
    {
        assert(s[q as int] == symbols@[q as int]@);
        let (right, after) = evaluate_negation(tags, symbols, q + 1);
        result = result && right;
        q = after;
    }
    proof {
        if q < symbols.len() {
            assert(s[q as int] == symbols@[q as int]@);
        }
    }
    (result, q)
}

/// The value and next position of the disjunction at `p`.
pub fn evaluate_disjunction(tags: &[&str], symbols: &Vec<Symbol>, p: usize) -> (o: (bool, usize))
    requires
        p <= symbols.len(),
    ensures
        (o.0, o.1 as int) == disjunction(tag_views(tags@), tokens_of(symbols@), p as int),
        p <= o.1 <= symbols.len(),
    decreases symbols.len() - p, 5int,
{
    let ghost t = tag_views(tags@);
    let ghost s = tokens_of(symbols@);
    let (first, next) = evaluate_conjunction(tags, symbols, p);
    let mut result = first;
    let mut q = next;
    while q < symbols.len() && matches!(symbols[q], Symbol::Or)
        invariant
            t == tag_views(tags@),
            s == tokens_of(symbols@),
            p <= q <= symbols.len(),
            disjunction(t, s, p as int) == disjunction_rest(t, s, result, q as int),
        decreases symbols.len() - q,
    {
        assert(s[q as int] == symbols@[q as int]@);
        let (right, after) = evaluate_conjunction(tags, symbols, q + 1);
        result = result || right;
        q = after;
    }
    proof {
        if q < symbols.len() {
            assert(s[q as int] == symbols@[q as int]@);
        }
    }
    (result, q)
}

/// Whether `c` is white space in the Unicode sense (`char::is_whitespace`).
pub open spec fn is_white(c: char) -> bool {
    let n = c as u32;
    (9 <= n && n <= 13) || n == 32 || n == 0x85 || n == 0xa0 || n == 0x1680 || (0x2000 <= n
        && n <= 0x200a) || n == 0x2028 || n == 0x2029 || n == 0x202f || n == 0x205f || n == 0x3000
}

fn white(c: char) -> (r: bool)
    ensures
        r == is_white(c),
{
    let n = c as u32;
    (9 <= n && n <= 13) || n == 32 || n == 0x85 || n == 0xa0 || n == 0x1680 || (0x2000 <= n
        && n <= 0x200a) || n == 0x2028 || n == 0x2029 || n == 0x202f || n == 0x205f || n == 0x3000
}

/// `s` without leading and trailing white space.
pub open spec fn trimmed(s: Seq<char>) -> Seq<char>
    decreases s.len(),
{
    if s.len() > 0 && is_white(s[0]) {
        trimmed(s.drop_first())
    } else if s.len() > 0 && is_white(s.last()) {
        trimmed(s.drop_last())
    } else {
        s
    }
}

/// The characters without leading and trailing white space.
pub fn trim(chars: &Vec<char>) -> (r: Vec<char>)
    ensures
        r@ == trimmed(chars@),
{
    let ghost s = chars@;
    let mut a: usize = 0;
    let mut b: usize = chars.len();
    assert(s.subrange(0, s.len() as int) =~= s);
    while a < b && white(chars[a])
        invariant
            s == chars@,
            0 <= a <= b,
            b == chars.len(),
            trimmed(s) == trimmed(s.subrange(a as int, b as int)),
        decreases b - a,
    {
        assert(s.subrange(a as int, b as int).drop_first() =~= s.subrange(a + 1, b as int));
        a = a + 1;
    }
    while a < b && white(chars[b - 1])
        invariant
            s == chars@,
            0 <= a <= b <= chars.len(),
            a < b ==> !is_white(s[a as int]),
            trimmed(s) == trimmed(s.subrange(a as int, b as int)),
        decreases b - a,
    {
        assert(s.subrange(a as int, b as int).drop_last() =~= s.subrange(a as int, b - 1));
        b = b - 1;
    }
    let mut r: Vec<char> = Vec::new();
    let mut i = a;
    while i < b
        invariant
            s == chars@,
            a <= i <= b <= chars.len(),
            r@ == s.subrange(a as int, i as int),
        decreases b - i,
    {
        r.push(chars[i]);
        i = i + 1;
        assert(r@ =~= s.subrange(a as int, i as int));
    }
    r
}

/// What a query says of a card with these tags: a query of white space only
/// holds, any other is evaluated as a disjunction from its first symbol.
pub open spec fn evaluated(tags: Seq<Seq<char>>, query: Seq<char>) -> bool {
    let t = trimmed(query);
    if t.len() == 0 {
        true
    } else {
        disjunction(tags, tokenized(t), 0).0
    }
}

/// Whether a card with these tags passes the query.
pub fn evaluate(tags: &[&str], query: &str) -> (r: bool)
    ensures
        r == evaluated(tag_views(tags@), query@),
{
    let chars = chars_of(query);
    let t = trim(&chars);
    if t.len() == 0 {
        return true;
    }
    let symbols = tokenize_chars(&t);
    let (result, _) = evaluate_disjunction(tags, &symbols, 0);
    result
}

/// A search term: characters that do not break a term, neither starting nor
/// ending with white space (white space inside, such as a line break, is
/// part of the term).
pub open spec fn plain_term(t: Seq<char>) -> bool {
    &&& t.len() > 0
    &&& forall|i: int| 0 <= i < t.len() ==> !is_break(#[trigger] t[i])
    &&& !is_white(t[0])
    &&& !is_white(t.last())
}

proof fn lemma_trimmed_kept(q: Seq<char>)
    requires
        q.len() > 0,
        !is_white(q[0]),
        !is_white(q.last()),
    ensures
        trimmed(q) == q,
{
}

proof fn lemma_term_end_at(q: Seq<char>, i: int, t: Seq<char>, j: int)
    requires
        0 <= i <= j <= i + t.len(),
        i + t.len() <= q.len(),
        q.subrange(i, i + t.len()) == t,
        plain_term(t),
        i + t.len() == q.len() || is_break(q[i + t.len()]),
    ensures
        term_end(q, j) == i + t.len(),
    decreases i + t.len() - j,
{
    if j < i + t.len() {
        assert(q[j] == t[j - i]);
        lemma_term_end_at(q, i, t, j + 1);
    }
}

proof fn lemma_tokens_term(q: Seq<char>, i: int, t: Seq<char>)
    requires
        0 <= i,
        i + t.len() <= q.len(),
        q.subrange(i, i + t.len()) == t,
        plain_term(t),
        i + t.len() == q.len() || is_break(q[i + t.len()]),
    ensures
        tokens_from(q, i) == seq![Token::Term(t)] + tokens_from(q, i + t.len()),
{
    assert(q[i] == t[0]);
    lemma_term_end_at(q, i, t, i);
}

proof fn lemma_tokens_end(q: Seq<char>)
    ensures
        tokens_from(q, q.len() as int) == Seq::<Token>::empty(),
{
}

/// A single term holds of a card exactly when one of its tags contains it.
pub proof fn lemma_query_term(tags: Seq<Seq<char>>, t: Seq<char>)
    requires
        plain_term(t),
    ensures
        evaluated(tags, t) == matched(tags, t),
{
    lemma_trimmed_kept(t);
    assert(t.subrange(0, t.len() as int) =~= t);
    lemma_tokens_term(t, 0, t);
    lemma_tokens_end(t);
    let s = tokenized(t);
    assert(s =~= seq![Token::Term(t)]);
    assert(atom(tags, s, 0) == (matched(tags, t), 1int));
    assert(negation(tags, s, 0) == (matched(tags, t), 1int));
    assert(conjunction_rest(tags, s, matched(tags, t), 1) == (matched(tags, t), 1int));
    assert(conjunction(tags, s, 0) == (matched(tags, t), 1int));
    assert(disjunction_rest(tags, s, matched(tags, t), 1) == (matched(tags, t), 1int));
}

/// `!t` holds of a card exactly when no tag contains `t`.
pub proof fn lemma_query_not(tags: Seq<Seq<char>>, t: Seq<char>)
    requires
        plain_term(t),
    ensures
        evaluated(tags, seq!['!'] + t) == !matched(tags, t),
{
    let q = seq!['!'] + t;
    assert(q.last() == t.last());
    lemma_trimmed_kept(q);
    assert(q.subrange(1, q.len() as int) =~= t);
    lemma_tokens_term(q, 1, t);
    lemma_tokens_end(q);
    let s = tokenized(q);
    assert(s =~= seq![Token::Not, Token::Term(t)]);
    let m = matched(tags, t);
    assert(atom(tags, s, 1) == (m, 2int));
    assert(negation(tags, s, 1) == (m, 2int));
    assert(negation(tags, s, 0) == (!m, 2int));
    assert(conjunction_rest(tags, s, !m, 2) == (!m, 2int));
    assert(conjunction(tags, s, 0) == (!m, 2int));
    assert(disjunction_rest(tags, s, !m, 2) == (!m, 2int));
}

/// `a.b` holds of a card exactly when both terms are contained in its tags.
pub proof fn lemma_query_and(tags: Seq<Seq<char>>, a: Seq<char>, b: Seq<char>)
    requires
        plain_term(a),
        plain_term(b),
    ensures
        evaluated(tags, a + seq!['.'] + b) == (matched(tags, a) && matched(tags, b)),
{
    let q = a + seq!['.'] + b;
    let n = a.len() as int;
    assert(q[0] == a[0]);
    assert(q.last() == b.last());
    lemma_trimmed_kept(q);
    assert(q.subrange(0, n) =~= a);
    assert(q[n] == '.');
    assert(q.subrange(n + 1, q.len() as int) =~= b);
    lemma_tokens_term(q, 0, a);
    lemma_tokens_term(q, n + 1, b);
    lemma_tokens_end(q);
    let s = tokenized(q);
    assert(s =~= seq![Token::Term(a), Token::And, Token::Term(b)]);
    let x = matched(tags, a);
    let y = matched(tags, b);
    assert(atom(tags, s, 0) == (x, 1int));
    assert(negation(tags, s, 0) == (x, 1int));
    assert(atom(tags, s, 2) == (y, 3int));
    assert(negation(tags, s, 2) == (y, 3int));
    assert(conjunction_rest(tags, s, x && y, 3) == (x && y, 3int));
    assert(conjunction_rest(tags, s, x, 1) == (x && y, 3int));
    assert(conjunction(tags, s, 0) == (x && y, 3int));
    assert(disjunction_rest(tags, s, x && y, 3) == (x && y, 3int));
}

/// `a,b` holds of a card exactly when one of the terms is contained in its
/// tags.
pub proof fn lemma_query_or(tags: Seq<Seq<char>>, a: Seq<char>, b: Seq<char>)
    requires
        plain_term(a),
        plain_term(b),
    ensures
        evaluated(tags, a + seq![','] + b) == (matched(tags, a) || matched(tags, b)),
{
    let q = a + seq![','] + b;
    let n = a.len() as int;
    assert(q[0] == a[0]);
    assert(q.last() == b.last());
    lemma_trimmed_kept(q);
    assert(q.subrange(0, n) =~= a);
    assert(q[n] == ',');
    assert(q.subrange(n + 1, q.len() as int) =~= b);
    lemma_tokens_term(q, 0, a);
    lemma_tokens_term(q, n + 1, b);
    lemma_tokens_end(q);
    let s = tokenized(q);
    assert(s =~= seq![Token::Term(a), Token::Or, Token::Term(b)]);
    let x = matched(tags, a);
    let y = matched(tags, b);
    assert(atom(tags, s, 0) == (x, 1int));
    assert(negation(tags, s, 0) == (x, 1int));
    assert(conjunction_rest(tags, s, x, 1) == (x, 1int));
    assert(conjunction(tags, s, 0) == (x, 1int));
    assert(atom(tags, s, 2) == (y, 3int));
    assert(negation(tags, s, 2) == (y, 3int));
    assert(conjunction_rest(tags, s, y, 3) == (y, 3int));
    assert(conjunction(tags, s, 2) == (y, 3int));
    assert(disjunction_rest(tags, s, x || y, 3) == (x || y, 3int));
    assert(disjunction_rest(tags, s, x, 1) == (x || y, 3int));
}

/// A term in parentheses holds exactly when the term does.
pub proof fn lemma_query_group(tags: Seq<Seq<char>>, t: Seq<char>)
    requires
        plain_term(t),
    ensures
        evaluated(tags, seq!['('] + t + seq![')']) == matched(tags, t),
{
    let q = seq!['('] + t + seq![')'];
    let n = t.len() as int;
    lemma_trimmed_kept(q);
    assert(q.subrange(1, n + 1) =~= t);
    assert(q[n + 1] == ')');
    lemma_tokens_term(q, 1, t);
    lemma_tokens_end(q);
    let s = tokenized(q);
    assert(s =~= seq![Token::Open, Token::Term(t), Token::Close]);
    let m = matched(tags, t);
    assert(atom(tags, s, 1) == (m, 2int));
    assert(negation(tags, s, 1) == (m, 2int));
    assert(conjunction_rest(tags, s, m, 2) == (m, 2int));
    assert(conjunction(tags, s, 1) == (m, 2int));
    assert(disjunction_rest(tags, s, m, 2) == (m, 2int));
    assert(disjunction(tags, s, 1) == (m, 2int));
    assert(atom(tags, s, 0) == (m, 3int));
    assert(negation(tags, s, 0) == (m, 3int));
    assert(conjunction_rest(tags, s, m, 3) == (m, 3int));
    assert(conjunction(tags, s, 0) == (m, 3int));
    assert(disjunction_rest(tags, s, m, 3) == (m, 3int));
}

proof fn lemma_trimmed_white(q: Seq<char>)
    requires
        forall|i: int| 0 <= i < q.len() ==> is_white(#[trigger] q[i]),
    ensures
        trimmed(q).len() == 0,
    decreases q.len(),
{
    if q.len() > 0 {
        assert forall|i: int| 0 <= i < q.drop_first().len() implies is_white(#[trigger] q.drop_first()[i]) by {
            assert(q.drop_first()[i] == q[i + 1]);
        }
        lemma_trimmed_white(q.drop_first());
    }
}

/// A query of white space only lets every card through.
pub proof fn lemma_query_blank(tags: Seq<Seq<char>>, q: Seq<char>)
    requires
        forall|i: int| 0 <= i < q.len() ==> is_white(#[trigger] q[i]),
    ensures
        evaluated(tags, q),
{
    lemma_trimmed_white(q);
}

/// Terms joined by a separator character: `a`, `a.b`, `a.b.c`, ...
pub open spec fn joined_terms(ts: Seq<Seq<char>>, sep: char) -> Seq<char>
    decreases ts.len(),
{
    if ts.len() == 0 {
        seq![]
    } else if ts.len() == 1 {
        ts[0]
    } else {
        ts[0] + seq![sep] + joined_terms(ts.drop_first(), sep)
    }
}

/// The tokens of terms joined by the operator `op`.
spec fn chain_tokens(ts: Seq<Seq<char>>, op: Token) -> Seq<Token>
    decreases ts.len(),
{
    if ts.len() == 0 {
        seq![]
    } else if ts.len() == 1 {
        seq![Token::Term(ts[0])]
    } else {
        seq![Token::Term(ts[0]), op] + chain_tokens(ts.drop_first(), op)
    }
}

proof fn lemma_term_end_shift(a: Seq<char>, b: Seq<char>, j: int)
    requires
        0 <= j <= b.len(),
    ensures
        term_end(a + b, a.len() + j) == a.len() + term_end(b, j),
    decreases b.len() - j,
{
    if j < b.len() {
        assert((a + b)[a.len() + j] == b[j]);
        if !is_break(b[j]) {
            lemma_term_end_shift(a, b, j + 1);
        }
    }
}

proof fn lemma_tokens_shift(a: Seq<char>, b: Seq<char>, j: int)
    requires
        0 <= j <= b.len(),
    ensures
        tokens_from(a + b, a.len() + j) == tokens_from(b, j),
    decreases b.len() - j,
{
    let q = a + b;
    let i = a.len() + j;
    if j < b.len() {
        assert(q[i] == b[j]);
        if is_blank(b[j]) || is_operator(b[j]) {
            lemma_tokens_shift(a, b, j + 1);
        } else {
            lemma_term_end_shift(a, b, j);
            lemma_term_end(b, j);
            let e = term_end(b, j);
            assert(q.subrange(i, a.len() + e) =~= b.subrange(j, e));
            lemma_tokens_shift(a, b, e);
        }
    }
}

proof fn lemma_joined_ends(ts: Seq<Seq<char>>, sep: char)
    requires
        ts.len() >= 1,
        forall|i: int| 0 <= i < ts.len() ==> plain_term(#[trigger] ts[i]),
    ensures
        joined_terms(ts, sep).len() > 0,
        joined_terms(ts, sep)[0] == ts[0][0],
        joined_terms(ts, sep).last() == ts.last().last(),
    decreases ts.len(),
{
    assert(plain_term(ts[0]));
    if ts.len() > 1 {
        let r = ts.drop_first();
        assert forall|i: int| 0 <= i < r.len() implies plain_term(#[trigger] r[i]) by {
            assert(r[i] == ts[i + 1]);
        }
        lemma_joined_ends(r, sep);
        assert(r.last() == ts.last());
    }
}

proof fn lemma_chain_tokenized(ts: Seq<Seq<char>>, sep: char)
    requires
        ts.len() >= 1,
        forall|i: int| 0 <= i < ts.len() ==> plain_term(#[trigger] ts[i]),
        is_operator(sep),
    ensures
        tokens_from(joined_terms(ts, sep), 0) == chain_tokens(ts, operator_token(sep)),
    decreases ts.len(),
{
    let q = joined_terms(ts, sep);
    let t = ts[0];
    assert(plain_term(t));
    if ts.len() == 1 {
        assert(q.subrange(0, t.len() as int) =~= t);
        lemma_tokens_term(q, 0, t);
        lemma_tokens_end(q);
        assert(tokens_from(q, 0) =~= seq![Token::Term(t)]);
    } else {
        let r = ts.drop_first();
        assert forall|i: int| 0 <= i < r.len() implies plain_term(#[trigger] r[i]) by {
            assert(r[i] == ts[i + 1]);
        }
        let head = t + seq![sep];
        assert(q =~= head + joined_terms(r, sep));
        let n = t.len() as int;
        assert(q.subrange(0, n) =~= t);
        assert(q[n] == sep);
        lemma_tokens_term(q, 0, t);
        lemma_tokens_shift(head, joined_terms(r, sep), 0);
        lemma_chain_tokenized(r, sep);
        assert(tokens_from(q, n) == seq![operator_token(sep)] + tokens_from(q, n + 1));
        assert(tokens_from(q, 0) =~= seq![Token::Term(t), operator_token(sep)] + chain_tokens(r, operator_token(sep)));
    }
}

proof fn lemma_chain_tokens(ts: Seq<Seq<char>>, op: Token)
    requires
        ts.len() >= 1,
    ensures
        chain_tokens(ts, op).len() == 2 * ts.len() - 1,
        forall|k: int| 0 <= k < ts.len() ==> #[trigger] chain_tokens(ts, op)[2 * k] == Token::Term(ts[k]),
        forall|k: int| 0 <= k < ts.len() - 1 ==> #[trigger] chain_tokens(ts, op)[2 * k + 1] == op,
    decreases ts.len(),
{
    if ts.len() > 1 {
        let r = ts.drop_first();
        lemma_chain_tokens(r, op);
        let s = chain_tokens(ts, op);
        assert forall|k: int| 0 <= k < ts.len() implies #[trigger] s[2 * k] == Token::Term(ts[k]) by {
            if k > 0 {
                assert(s[2 * k] == chain_tokens(r, op)[2 * (k - 1)]);
                assert(r[k - 1] == ts[k]);
            }
        }
        assert forall|k: int| 0 <= k < ts.len() - 1 implies #[trigger] s[2 * k + 1] == op by {
            if k > 0 {
                assert(s[2 * k + 1] == chain_tokens(r, op)[2 * (k - 1) + 1]);
            }
        }
    }
}

proof fn lemma_term_factor(tags: Seq<Seq<char>>, s: Seq<Token>, p: int, t: Seq<char>)
    requires
        0 <= p < s.len(),
        s[p] == Token::Term(t),
    ensures
        negation(tags, s, p) == (matched(tags, t), p + 1),
{
    assert(!(s[p] is Not));
    assert(atom(tags, s, p) == (matched(tags, t), p + 1));
}

proof fn lemma_conjunction_chain(tags: Seq<Seq<char>>, ts: Seq<Seq<char>>, s: Seq<Token>, k: int, acc: bool)
    requires
        ts.len() >= 1,
        0 <= k < ts.len(),
        s.len() == 2 * ts.len() - 1,
        forall|j: int| 0 <= j < ts.len() ==> #[trigger] s[2 * j] == Token::Term(ts[j]),
        forall|j: int| 0 <= j < ts.len() - 1 ==> #[trigger] s[2 * j + 1] == Token::And,
    ensures
        conjunction_rest(tags, s, acc, 2 * k + 1) == (acc && forall|j: int| k < j < ts.len() ==> matched(
            tags,
            #[trigger] ts[j],
        ), s.len() as int),
    decreases ts.len() - k,
{
    if k < ts.len() - 1 {
        assert(s[2 * k + 1] == Token::And);
        assert(s[2 * (k + 1)] == Token::Term(ts[k + 1]));
        lemma_term_factor(tags, s, 2 * k + 2, ts[k + 1]);
        lemma_conjunction_chain(tags, ts, s, k + 1, acc && matched(tags, ts[k + 1]));
        assert((acc && matched(tags, ts[k + 1]) && forall|j: int| k + 1 < j < ts.len() ==> matched(tags, #[trigger] ts[j]))
            == (acc && forall|j: int| k < j < ts.len() ==> matched(tags, #[trigger] ts[j])));
    }
}

proof fn lemma_disjunction_chain(tags: Seq<Seq<char>>, ts: Seq<Seq<char>>, s: Seq<Token>, k: int, acc: bool)
    requires
        ts.len() >= 1,
        0 <= k < ts.len(),
        s.len() == 2 * ts.len() - 1,
        forall|j: int| 0 <= j < ts.len() ==> #[trigger] s[2 * j] == Token::Term(ts[j]),
        forall|j: int| 0 <= j < ts.len() - 1 ==> #[trigger] s[2 * j + 1] == Token::Or,
    ensures
        disjunction_rest(tags, s, acc, 2 * k + 1) == (acc || exists|j: int| k < j < ts.len() && matched(
            tags,
            #[trigger] ts[j],
        ), s.len() as int),
    decreases ts.len() - k,
{
    if k < ts.len() - 1 {
        let p = 2 * (k + 1);
        assert(s[2 * k + 1] == Token::Or);
        assert(s[p] == Token::Term(ts[k + 1]));
        lemma_term_factor(tags, s, p, ts[k + 1]);
        if k + 1 < ts.len() - 1 {
            assert(s[2 * (k + 1) + 1] == Token::Or);
        }
        assert(conjunction_rest(tags, s, matched(tags, ts[k + 1]), p + 1) == (matched(tags, ts[k + 1]), p + 1));
        assert(conjunction(tags, s, p) == (matched(tags, ts[k + 1]), p + 1));
        lemma_disjunction_chain(tags, ts, s, k + 1, acc || matched(tags, ts[k + 1]));
        assert((acc || matched(tags, ts[k + 1]) || exists|j: int| k + 1 < j < ts.len() && matched(tags, #[trigger] ts[j]))
            == (acc || exists|j: int| k < j < ts.len() && matched(tags, #[trigger] ts[j])));
    }
}

/// Terms joined by `.` hold of a card exactly when every one of them is
/// contained in one of its tags, however many terms there are.
pub proof fn lemma_query_all(tags: Seq<Seq<char>>, ts: Seq<Seq<char>>)
    requires
        ts.len() >= 1,
        forall|i: int| 0 <= i < ts.len() ==> plain_term(#[trigger] ts[i]),
    ensures
        evaluated(tags, joined_terms(ts, '.')) == forall|i: int| 0 <= i < ts.len() ==> matched(tags, #[trigger] ts[i]),
{
    let q = joined_terms(ts, '.');
    lemma_joined_ends(ts, '.');
    assert(plain_term(ts[0]));
    assert(plain_term(ts.last()));
    lemma_trimmed_kept(q);
    lemma_chain_tokenized(ts, '.');
    let s = tokenized(q);
    assert(s == chain_tokens(ts, Token::And));
    lemma_chain_tokens(ts, Token::And);
    assert(s[0] == Token::Term(ts[0]));
    lemma_term_factor(tags, s, 0, ts[0]);
    lemma_conjunction_chain(tags, ts, s, 0, matched(tags, ts[0]));
    let all = forall|i: int| 0 <= i < ts.len() ==> matched(tags, #[trigger] ts[i]);
    assert((matched(tags, ts[0]) && forall|j: int| 0 < j < ts.len() ==> matched(tags, #[trigger] ts[j])) == all);
    assert(conjunction(tags, s, 0) == (all, s.len() as int));
    assert(disjunction(tags, s, 0) == (all, s.len() as int));
}

/// Terms joined by `,` hold of a card exactly when some one of them is
/// contained in one of its tags, however many terms there are.
pub proof fn lemma_query_any(tags: Seq<Seq<char>>, ts: Seq<Seq<char>>)
    requires
        ts.len() >= 1,
        forall|i: int| 0 <= i < ts.len() ==> plain_term(#[trigger] ts[i]),
    ensures
        evaluated(tags, joined_terms(ts, ',')) == exists|i: int| 0 <= i < ts.len() && matched(tags, #[trigger] ts[i]),
{
    let q = joined_terms(ts, ',');
    lemma_joined_ends(ts, ',');
    assert(plain_term(ts[0]));
    assert(plain_term(ts.last()));
    lemma_trimmed_kept(q);
    lemma_chain_tokenized(ts, ',');
    let s = tokenized(q);
    assert(s == chain_tokens(ts, Token::Or));
    lemma_chain_tokens(ts, Token::Or);
    assert(s[0] == Token::Term(ts[0]));
    let m0 = matched(tags, ts[0]);
    lemma_term_factor(tags, s, 0, ts[0]);
    if ts.len() > 1 {
        assert(s[1] == Token::Or);
    }
    assert(conjunction_rest(tags, s, m0, 1) == (m0, 1int));
    assert(conjunction(tags, s, 0) == (m0, 1int));
    lemma_disjunction_chain(tags, ts, s, 0, m0);
    let any = exists|i: int| 0 <= i < ts.len() && matched(tags, #[trigger] ts[i]);
    assert((m0 || exists|j: int| 0 < j < ts.len() && matched(tags, #[trigger] ts[j])) == any);
    assert(disjunction(tags, s, 0) == (any, s.len() as int));
}

/// The words of `s`: the runs of characters between white space, as
/// `str::split_whitespace` gives them.
pub open spec fn words(s: Seq<char>) -> Seq<Seq<char>>
    decreases s.len(),
{
    if s.len() == 0 {
        seq![]
    } else {
        let prior = words(s.drop_last());
        let c = s.last();
        if is_white(c) {
            prior
        } else if s.len() >= 2 && !is_white(s[s.len() - 2]) && prior.len() > 0 {
            prior.update(prior.len() - 1, prior.last().push(c))
        } else {
            prior.push(seq![c])
        }
    }
}

/// The words of `s`.
pub fn split_words(s: &str) -> (r: Vec<String>)
    ensures
        crate::imports::views(r@) == words(s@),
{
    let chars = chars_of(s);
    let mut done: Vec<String> = Vec::new();
    let mut current: Vec<char> = Vec::new();
    let mut i: usize = 0;
    assert(chars@.take(0) =~= Seq::<char>::empty());
    while i < chars.len()
        invariant
            i <= chars.len(),
            chars@ == s@,
            current@.len() > 0 <==> (i > 0 && !is_white(chars@[i - 1])),
            words(chars@.take(i as int)) == if current@.len() > 0 {
                crate::imports::views(done@).push(current@)
            } else {
                crate::imports::views(done@)
            },
        decreases chars.len() - i,
    {
        let ghost t = chars@.take(i + 1);
        assert(t.drop_last() =~= chars@.take(i as int));
        assert(t.last() == chars@[i as int]);
        if i >= 1 {
            assert(t[t.len() - 2] == chars@[i - 1]);
        }
        if white(chars[i]) {
            if current.len() > 0 {
                let word = crate::text::string_of(&current);
                let ghost before = done@;
                done.push(word);
                assert(crate::imports::views(done@) =~= crate::imports::views(before).push(current@));
                current = Vec::new();
            }
        } else {
            let ghost old_current = current@;
            current.push(chars[i]);
            proof {
                if old_current.len() > 0 {
                    assert(crate::imports::views(done@).push(old_current).update(
                        crate::imports::views(done@).len() as int,
                        old_current.push(chars@[i as int]),
                    ) =~= crate::imports::views(done@).push(current@));
                } else {
                    assert(seq![chars@[i as int]] =~= current@);
                }
            }
        }
        i = i + 1;
    }
    assert(chars@.take(i as int) =~= chars@);
    if current.len() > 0 {
        let word = crate::text::string_of(&current);
        let ghost before = done@;
        done.push(word);
        assert(crate::imports::views(done@) =~= crate::imports::views(before).push(current@));
    }
    done
}

/// The lowercase form of a text, as Unicode defines it.
pub uninterp spec fn lower(s: Seq<char>) -> Seq<char>;

/// The lowercase form of `s`.
///
/// Trusted: wraps `str::to_lowercase`; the claim is only that the result is
/// the lowercase form of `s`, which Unicode's case tables define.
#[verifier::external_body]
pub(crate) fn lowercase(s: &str) -> (r: String)
    ensures
        r@ == lower(s@),
{
    s.to_lowercase()
}

/// The lowercase words of a card's tag attribute.
pub open spec fn card_tags(raw: Seq<char>) -> Seq<Seq<char>> {
    words(raw).map_values(|w: Seq<char>| lower(w))
}

/// What the search box decides for a query: whether each card shows, the
/// counter text, and whether the notice of no matching card shows.
pub struct Filtered {
    pub shown: Vec<bool>,
    pub counter: Option<String>,
    pub empty: bool,
}

/// How many of the flags are set.
pub open spec fn count_shown(flags: Seq<bool>) -> nat
    decreases flags.len(),
{
    if flags.len() == 0 {
        0
    } else {
        count_shown(flags.drop_last()) + if flags.last() { 1nat } else { 0nat }
    }
}

/// Filters cards by a query: with an empty query every card shows and no
/// counter is set; otherwise a card shows when its lowercase tags pass the
/// lowercase query, the counter reads `shown / total`, and the notice shows
/// when no card does.
pub fn filter(query: &str, cards: &Vec<String>) -> (r: Filtered)
    ensures
        r.shown@.len() == cards@.len(),
        forall|i: int| 0 <= i < cards@.len() ==> #[trigger] r.shown@[i] == (lower(query@).len() == 0
            || evaluated(card_tags(cards@[i]@), lower(query@))),
        lower(query@).len() == 0 ==> r.counter is None,
        lower(query@).len() > 0 ==> (r.counter matches Some(c) && c@ == crate::names::decimal(
            count_shown(r.shown@),
        ) + " / "@ + crate::names::decimal(cards@.len() as nat)),
        r.empty == (count_shown(r.shown@) == 0 && lower(query@).len() > 0),
{
    let q = lowercase(query);
    let blank = chars_of(q.as_str()).len() == 0;
    let mut shown: Vec<bool> = Vec::new();
    let mut visible: usize = 0;
    let mut i: usize = 0;
    while i < cards.len()
        invariant
            i <= cards.len(),
            q@ == lower(query@),
            blank == (q@.len() == 0),
            shown@.len() == i,
            visible == count_shown(shown@),
            visible <= i,
            forall|j: int| 0 <= j < i ==> #[trigger] shown@[j] == (q@.len() == 0 || evaluated(
                card_tags(cards@[j]@),
                q@,
            )),
        decreases cards.len() - i,
    {
        let pass = if blank {
            true
        } else {
            let parts = split_words(cards[i].as_str());
            let mut lowered: Vec<String> = Vec::new();
            let mut k: usize = 0;
            while k < parts.len()
                invariant
                    k <= parts.len(),
                    crate::imports::views(lowered@) == words(cards@[i as int]@).take(k as int).map_values(
                        |w: Seq<char>| lower(w),
                    ),
                    crate::imports::views(parts@) == words(cards@[i as int]@),
                decreases parts.len() - k,
            {
                let ghost before = lowered@;
                lowered.push(lowercase(parts[k].as_str()));
                assert(crate::imports::views(lowered@) =~= crate::imports::views(before).push(lower(parts@[k as int]@)));
                k = k + 1;
                assert(words(cards@[i as int]@).take(k as int).map_values(|w: Seq<char>| lower(w)) =~= words(
                    cards@[i as int]@,
                ).take(k - 1).map_values(|w: Seq<char>| lower(w)).push(lower(parts@[k - 1]@)));
            }
            assert(words(cards@[i as int]@).take(k as int) =~= words(cards@[i as int]@));
            let mut refs: Vec<&str> = Vec::new();
            let mut m: usize = 0;
            while m < lowered.len()
                invariant
                    m <= lowered.len(),
                    tag_views(refs@) == crate::imports::views(lowered@).take(m as int),
                decreases lowered.len() - m,
            {
                let ghost before = refs@;
                refs.push(lowered[m].as_str());
                assert(tag_views(refs@) =~= tag_views(before).push(lowered@[m as int]@));
                m = m + 1;
                assert(crate::imports::views(lowered@).take(m as int) =~= crate::imports::views(lowered@).take(
                    m - 1,
                ).push(lowered@[m - 1]@));
            }
            assert(crate::imports::views(lowered@).take(m as int) =~= crate::imports::views(lowered@));
            evaluate(refs.as_slice(), q.as_str())
        };
        let ghost before = shown@;
        shown.push(pass);
        assert(shown@.drop_last() =~= before);
        if pass {
            visible = visible + 1;
        }
        i = i + 1;
    }
    let counter = if blank {
        None
    } else {
        let mut out: Vec<char> = Vec::new();
        crate::text::extend_str(&mut out, crate::names::decimal_text(visible).as_str());
        crate::text::extend_str(&mut out, " / ");
        crate::text::extend_str(&mut out, crate::names::decimal_text(cards.len()).as_str());
        Some(crate::text::string_of(&out))
    };
    Filtered { shown, counter, empty: visible == 0 && !blank }
}

} // verus!
