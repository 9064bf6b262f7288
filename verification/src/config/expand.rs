//! Expressions inside configuration text.
//!
//! Text between `${{` and `}}$` is an expression; the rest is literal.
use vstd::prelude::*;
use crate::text::{
    chars_of, find, find_from, lemma_find_from, lemma_find_shift, occurs, substring, trim, trimmed,
};

verus! {

/// A piece of text: literal text, or an expression without the white space around it.
#[derive(Debug)]
pub enum ExprToken {
    String(String),
    Expression(String),
}

/// The model of a piece of text.
#[verifier::ext_equal]
pub enum Piece {
    Literal(Seq<char>),
    Expression(Seq<char>),
}

impl View for ExprToken {
    type V = Piece;

    open spec fn view(&self) -> Piece {
        match self {
            ExprToken::String(s) => Piece::Literal(s@),
            ExprToken::Expression(s) => Piece::Expression(s@),
        }
    }
}

impl PartialEq for ExprToken {
    fn eq(&self, other: &ExprToken) -> (r: bool) {
        match (self, other) {
            (ExprToken::String(a), ExprToken::String(b)) => *a == *b,
            (ExprToken::Expression(a), ExprToken::Expression(b)) => *a == *b,
            _ => false,
        }
    }
}

impl vstd::std_specs::cmp::PartialEqSpecImpl for ExprToken {
    open spec fn obeys_eq_spec() -> bool {
        true
    }

    open spec fn eq_spec(&self, other: &ExprToken) -> bool {
        self@ == other@
    }
}

/// The pieces of a list of tokens.
pub open spec fn pieces(tokens: Seq<ExprToken>) -> Seq<Piece> {
    tokens.map_values(|t: ExprToken| t@)
}

/// Text as a list of literal pieces: none for the empty text.
pub open spec fn literal_of(s: Seq<char>) -> Seq<Piece> {
    if s.len() == 0 {
        seq![]
    } else {
        seq![Piece::Literal(s)]
    }
}

/// The pieces of the text `s`. The first opening mark ends a literal piece; if a closing mark
/// follows, the text between is an expression, and else the opening mark itself is a literal
/// piece. What comes after is read in the same way.
pub open spec fn pieces_of(s: Seq<char>) -> Seq<Piece>
    decreases s.len(),
{
    let start = find_from(s, "${{"@, 0);
    if start > s.len() || "${{"@.len() == 0 {
        literal_of(s)
    } else {
        let open = start + "${{"@.len();
        let end = find_from(s, "}}$"@, open);
        proof {
            lemma_find_from(s, "${{"@, 0);
            lemma_find_from(s, "}}$"@, open);
        }
        if end <= s.len() {
            literal_of(s.take(start)) + seq![Piece::Expression(trimmed(s.subrange(open, end)))]
                + pieces_of(s.skip(end + "}}$"@.len()))
        } else {
            literal_of(s.take(start)) + seq![Piece::Literal("${{"@)] + pieces_of(s.skip(open))
        }
    }
}

/// Reads a text as a list of literal pieces and expressions.
pub fn parse_expr_tokens(s: &str) -> (r: Vec<ExprToken>)
    ensures
        pieces(r@) == pieces_of(s@),
{
    let chars = chars_of(s);
    let open_mark = chars_of("${{");
    let close_mark = chars_of("}}$");
    proof {
        reveal_strlit("${{");
        reveal_strlit("}}$");
    }
    let n: usize = chars.len();
    let mut tokens: Vec<ExprToken> = Vec::new();
    let mut offset: usize = 0;
    assert(pieces(tokens@) + pieces_of(s@.skip(0)) == pieces_of(s@)) by {
        assert(s@.skip(0) == s@);
        assert(pieces(tokens@) == Seq::<Piece>::empty());
    }
    loop
        invariant
            chars@ == s@,
            n == chars@.len(),
            open_mark@ == "${{"@,
            close_mark@ == "}}$"@,
            "${{"@.len() == 3,
            "}}$"@.len() == 3,
            offset <= chars@.len(),
            pieces(tokens@) + pieces_of(s@.skip(offset as int)) == pieces_of(s@),
        decreases chars@.len() - offset,
    {
        let ghost rest = s@.skip(offset as int);
        let ghost done = pieces(tokens@);
        proof {
            lemma_find_shift(s@, "${{"@, offset as int, 0);
            lemma_find_from(s@, "${{"@, offset as int);
        }
        match find(&chars, &open_mark, offset) {
            None => {
                if offset < n {
                    let tail = substring(&chars, offset, n);
                    assert(tail@ == rest);
                    tokens.push(ExprToken::String(tail));
                    assert(pieces(tokens@) == done.push(Piece::Literal(rest)));
                    assert(done + seq![Piece::Literal(rest)] == done.push(Piece::Literal(rest)));
                } else {
                    assert(done + Seq::<Piece>::empty() == done);
                }
                return tokens;
            },
            Some(start) => {
                let ghost lit = literal_of(rest.take(start - offset));
                if start > offset {
                    let text = substring(&chars, offset, start);
                    assert(text@ == rest.take(start - offset));
                    tokens.push(ExprToken::String(text));
                    assert(pieces(tokens@) == done.push(Piece::Literal(text@)));
                    assert(done + lit == done.push(Piece::Literal(text@)));
                } else {
                    assert(done + lit == done);
                }
                let ghost done2 = pieces(tokens@);
                assert(done2 == done + lit);
                let open: usize = start + 3;
                proof {
                    lemma_find_shift(s@, "}}$"@, offset as int, open - offset);
                    lemma_find_from(s@, "}}$"@, open as int);
                }
                match find(&chars, &close_mark, open) {
                    Some(end) => {
                        let inner = substring(&chars, open, end);
                        let expr = trim(inner.as_str());
                        assert(inner@ == rest.subrange(open - offset, end - offset));
                        tokens.push(ExprToken::Expression(expr));
                        let ghost piece = Piece::Expression(expr@);
                        assert(pieces(tokens@) == done2.push(piece));
                        proof {
                            let next = pieces_of(rest.skip(end - offset + 3));
                            assert(rest.skip(end - offset + 3) == s@.skip(end + 3));
                            assert(done + (lit + seq![piece] + next) == done2.push(piece) + next);
                        }
                        offset = end + 3;
                    },
                    None => {
                        tokens.push(ExprToken::String("${{".to_owned()));
                        let ghost piece = Piece::Literal("${{"@);
                        assert(pieces(tokens@) == done2.push(piece));
                        proof {
                            let next = pieces_of(rest.skip(open - offset));
                            assert(rest.skip(open - offset) == s@.skip(open as int));
                            assert(done + (lit + seq![piece] + next) == done2.push(piece) + next);
                        }
                        offset = open;
                    },
                }
            },
        }
    }
}

/// Whether a piece is white space.
pub open spec fn is_blank(p: Piece) -> bool {
    p matches Piece::Literal(s) && trimmed(s).len() == 0
}

/// Whether the pieces are one expression with nothing but white space around it: the expression
/// stands at position `k`.
pub open spec fn alone_at(p: Seq<Piece>, k: int) -> bool {
    &&& 0 <= k < p.len()
    &&& p[k] is Expression
    &&& forall|j: int| 0 <= j < p.len() && j != k ==> is_blank(#[trigger] p[j])
}

/// Whether the pieces are one expression with nothing but white space around it.
pub open spec fn is_standalone(p: Seq<Piece>) -> bool {
    exists|k: int| alone_at(p, k)
}

/// Whether the tokens are one expression with nothing but white space around it.
pub fn is_standalone_tokens(tokens: &Vec<ExprToken>) -> (r: bool)
    ensures
        r == is_standalone(pieces(tokens@)),
{
    let ghost p = pieces(tokens@);
    let mut found: bool = false;
    let ghost mut at: int = 0;
    let mut i: usize = 0;
    while i < tokens.len()
        invariant
            i <= tokens@.len(),
            p == pieces(tokens@),
            found ==> 0 <= at < i && p[at] is Expression,
            forall|j: int| 0 <= j < i && !(found && j == at) ==> is_blank(#[trigger] p[j]),
        decreases tokens@.len() - i,
    {
        assert(p[i as int] == tokens@[i as int]@);
        match &tokens[i] {
            ExprToken::Expression(_) => {
                if found {
                    proof {
                        assert forall|k: int| !alone_at(p, k) by {
                            if alone_at(p, k) {
                                if k != at {
                                    assert(is_blank(p[at]));
                                } else {
                                    assert(is_blank(p[i as int]));
                                }
                            }
                        }
                    }
                    return false;
                }
                found = true;
                proof {
                    at = i as int;
                }
            },
            ExprToken::String(s) => {
                let t = trim(s.as_str());
                if !t.as_str().is_empty() {
                    proof {
                        assert forall|k: int| !alone_at(p, k) by {
                            if alone_at(p, k) {
                                if k != i {
                                    assert(is_blank(p[i as int]));
                                }
                            }
                        }
                    }
                    return false;
                }
            },
        }
        i += 1;
    }
    proof {
        if found {
            assert(alone_at(p, at));
        } else {
            assert forall|k: int| !alone_at(p, k) by {
                if alone_at(p, k) {
                    assert(is_blank(p[k]));
                }
            }
        }
    }
    found
}

/// Whether a text is one expression with nothing but white space around it.
pub fn is_standalone_expression(s: &str) -> (r: bool)
    ensures
        r == is_standalone(pieces_of(s@)),
{
    is_standalone_tokens(&parse_expr_tokens(s))
}

/// The expression of pieces that are one expression.
pub open spec fn standalone_expr(p: Seq<Piece>) -> Seq<char> {
    p[choose|k: int| alone_at(p, k)]->Expression_0
}

/// The expression of tokens that are one expression.
pub fn extract_expr_from_standalone(tokens: &Vec<ExprToken>) -> (r: String)
    requires
        is_standalone(pieces(tokens@)),
    ensures
        r@ == standalone_expr(pieces(tokens@)),
{
    let ghost p = pieces(tokens@);
    let ghost at = choose|k: int| alone_at(p, k);
    let mut i: usize = 0;
    while i < tokens.len()
        invariant
            i <= tokens@.len(),
            p == pieces(tokens@),
            alone_at(p, at),
            at == choose|k: int| alone_at(p, k),
            i <= at,
        decreases tokens@.len() - i,
    {
        assert(p[i as int] == tokens@[i as int]@);
        match &tokens[i] {
            ExprToken::Expression(e) => {
                assert(at == i) by {
                    if at != i {
                        assert(is_blank(p[i as int]));
                    }
                }
                return e.clone();
            },
            ExprToken::String(_) => {},
        }
        i += 1;
    }
    assert(false);
    String::new()
}

/// Literal text, with nothing for the expressions.
pub open spec fn literal_text(p: Seq<Piece>) -> Seq<char>
    decreases p.len(),
{
    if p.len() == 0 {
        seq![]
    } else {
        literal_text(p.drop_last()) + match p.last() {
            Piece::Literal(s) => s,
            Piece::Expression(_) => seq![],
        }
    }
}

proof fn lemma_literal_text_add(a: Seq<Piece>, b: Seq<Piece>)
    ensures
        literal_text(a + b) == literal_text(a) + literal_text(b),
    decreases b.len(),
{
    if b.len() == 0 {
        assert(a + b == a);
        assert(literal_text(a) + literal_text(b) == literal_text(a));
    } else {
        lemma_literal_text_add(a, b.drop_last());
        assert((a + b).drop_last() == a + b.drop_last());
        assert((a + b).last() == b.last());
    }
}

proof fn lemma_literal_one(s: Seq<char>)
    ensures
        literal_text(literal_of(s)) == s,
        literal_text(seq![Piece::Literal(s)]) == s,
{
    let one = seq![Piece::Literal(s)];
    assert(one.drop_last() == Seq::<Piece>::empty());
    assert(literal_text(one.drop_last()) == Seq::<char>::empty());
    assert(Seq::<char>::empty() + s == s);
    if s.len() == 0 {
        assert(literal_text(literal_of(s)) == Seq::<char>::empty());
    }
}

/// Text without an expression is kept as it is, whatever opening marks it has.
pub proof fn law_text_without_expressions_kept(s: Seq<char>)
    requires
        forall|j: int| 0 <= j < pieces_of(s).len() ==> (#[trigger] pieces_of(s)[j]) is Literal,
    ensures
        literal_text(pieces_of(s)) == s,
    decreases s.len(),
{
    reveal_strlit("${{");
    reveal_strlit("}}$");
    let start = find_from(s, "${{"@, 0);
    lemma_find_from(s, "${{"@, 0);
    if start > s.len() {
        lemma_literal_one(s);
    } else {
        let open = start + 3;
        let end = find_from(s, "}}$"@, open);
        lemma_find_from(s, "}}$"@, open);
        let lit = literal_of(s.take(start));
        if end <= s.len() {
            let piece = Piece::Expression(trimmed(s.subrange(open, end)));
            assert(pieces_of(s)[lit.len() as int] == piece);
        } else {
            let mark = seq![Piece::Literal("${{"@)];
            let next = pieces_of(s.skip(open));
            assert(pieces_of(s) == lit + mark + next);
            assert forall|j: int| 0 <= j < next.len() implies (#[trigger] next[j]) is Literal by {
                assert(pieces_of(s)[lit.len() + 1 + j] == next[j]);
            }
            law_text_without_expressions_kept(s.skip(open));
            lemma_literal_text_add(lit + mark, next);
            lemma_literal_text_add(lit, mark);
            lemma_literal_one(s.take(start));
            lemma_literal_one("${{"@);
            assert(s.subrange(start, open) == "${{"@);
            assert(s == s.take(start) + s.subrange(start, open) + s.skip(open));
        }
    }
}

/// An opening mark that is not closed is text: where no closing mark occurs there is no
/// expression, and the text is kept as it is.
pub proof fn law_unclosed_marks_are_text(s: Seq<char>)
    requires
        !occurs(s, "}}$"@),
    ensures
        forall|j: int| 0 <= j < pieces_of(s).len() ==> (#[trigger] pieces_of(s)[j]) is Literal,
        literal_text(pieces_of(s)) == s,
    decreases s.len(),
{
    reveal_strlit("${{");
    reveal_strlit("}}$");
    let start = find_from(s, "${{"@, 0);
    lemma_find_from(s, "${{"@, 0);
    if start <= s.len() {
        let open = start + 3;
        lemma_find_from(s, "}}$"@, open);
        lemma_find_from(s, "}}$"@, 0);
        let rest = s.skip(open);
        assert(!occurs(rest, "}}$"@)) by {
            lemma_find_from(rest, "}}$"@, 0);
            lemma_find_shift(s, "}}$"@, open, 0);
        }
        law_unclosed_marks_are_text(rest);
    }
    law_text_without_expressions_kept(s);
}

/// The value of the first of three settings that is given, else true.
pub open spec fn inherit_setting(
    local: Option<bool>,
    service: Option<bool>,
    global: Option<bool>,
) -> bool {
    match local {
        Some(b) => b,
        None => match service {
            Some(b) => b,
            None => match global {
                Some(b) => b,
                None => true,
            },
        },
    }
}

/// Whether the environment is inherited: the local setting comes before that of the service,
/// that one before the global one, and without any it is.
pub fn resolve_inherit_env(
    local: Option<bool>,
    service: Option<bool>,
    global: Option<bool>,
) -> (r: bool)
    ensures
        r == inherit_setting(local, service, global),
{
    match local {
        Some(b) => b,
        None => match service {
            Some(b) => b,
            None => match global {
                Some(b) => b,
                None => true,
            },
        },
    }
}

/// The nearest setting decides whether the environment is inherited, and without any it is.
pub proof fn law_nearest_setting_decides(
    local: Option<bool>,
    service: Option<bool>,
    global: Option<bool>,
    r: bool,
)
    requires
        call_ensures(resolve_inherit_env, (local, service, global), r),
    ensures
        local matches Some(b) ==> r == b,
        local is None ==> (service matches Some(b) ==> r == b),
        local is None && service is None ==> (global matches Some(b) ==> r == b),
        local is None && service is None && global is None ==> r,
{
}

/// Pieces stand alone exactly if one of them is an expression and all others are white space.
pub proof fn law_alone_means_one_expression(tokens: Vec<ExprToken>, r: bool, k: int)
    requires
        call_ensures(is_standalone_tokens, (&tokens,), r),
        0 <= k < tokens@.len(),
    ensures
        (tokens@[k] matches ExprToken::String(s) && trimmed(s@).len() > 0) ==> !r,
        tokens@[k] is Expression && (forall|j: int|
            0 <= j < tokens@.len() && j != k ==> ((#[trigger] tokens@[j]) matches ExprToken::String(
                s,
            ) && trimmed(s@).len() == 0)) ==> r,
        r ==> exists|j: int| 0 <= j < tokens@.len() && (#[trigger] tokens@[j]) is Expression,
{
    let p = pieces(tokens@);
    assert(p[k] == tokens@[k]@);
    if r {
        let j = choose|j: int| alone_at(p, j);
        assert(p[j] == tokens@[j]@);
        assert(tokens@[j] is Expression);
        if j != k {
            assert(is_blank(p[k]));
        }
    }
    if tokens@[k] is Expression && (forall|j: int|
        0 <= j < tokens@.len() && j != k ==> ((#[trigger] tokens@[j]) matches ExprToken::String(s)
            && trimmed(s@).len() == 0)) {
        assert forall|j: int| 0 <= j < p.len() && j != k implies is_blank(#[trigger] p[j]) by {
            assert(p[j] == tokens@[j]@);
            assert(tokens@[j] is String);
        }
        assert(alone_at(p, k));
    }
}

/// The expression of pieces that stand alone is the one that is among them.
pub proof fn law_expression_that_stands_alone(tokens: Vec<ExprToken>, r: String, k: int)
    requires
        call_ensures(extract_expr_from_standalone, (&tokens,), r),
        is_standalone(pieces(tokens@)),
        0 <= k < tokens@.len(),
        tokens@[k] is Expression,
    ensures
        tokens@[k] matches ExprToken::Expression(e) && r@ == e@,
{
    let p = pieces(tokens@);
    let j = choose|j: int| alone_at(p, j);
    assert(p[k] == tokens@[k]@);
    if j != k {
        assert(is_blank(p[k]));
    }
}

} // verus!
