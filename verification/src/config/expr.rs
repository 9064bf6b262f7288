//! Values that are computed when a service starts.
use vstd::prelude::*;
use vstd::string::*;
use crate::config::expand::{
    alone_at, extract_expr_from_standalone, is_standalone, is_standalone_tokens,
    law_text_without_expressions_kept, literal_of, literal_text, parse_expr_tokens, pieces,
    pieces_of, standalone_expr, ExprToken, Piece,
};
use crate::text::{
    concat3, contains, find_from, is_space, lemma_find_from, lemma_occurs_iff_found,
    lemma_trimmed_fixed, occurs, same, stands_at, trim_end, trim_start, trimmed,
};
use crate::value::{untagged, Tree, Yaml};

verus! {

/// A value that is computed when a service starts.
#[derive(Debug)]
pub enum DynamicExpr {
    /// A text that is one expression; its result keeps its type.
    Expression(String),
    /// A text with expressions in it; its result is a text.
    Interpolated(Vec<OwnedExprToken>),
    /// A block of code; its result keeps its type.
    Lua(String),
}

/// A piece of a text with expressions in it.
#[derive(Debug)]
pub enum OwnedExprToken {
    Literal(String),
    Expression(String),
}

/// The model of a computed value.
#[verifier::ext_equal]
pub enum Computed {
    Expression(Seq<char>),
    Interpolated(Seq<Piece>),
    Lua(Seq<char>),
}

impl View for OwnedExprToken {
    type V = Piece;

    open spec fn view(&self) -> Piece {
        match self {
            OwnedExprToken::Literal(s) => Piece::Literal(s@),
            OwnedExprToken::Expression(s) => Piece::Expression(s@),
        }
    }
}

/// The pieces of a list of tokens.
pub open spec fn owned_pieces(tokens: Seq<OwnedExprToken>) -> Seq<Piece> {
    tokens.map_values(|t: OwnedExprToken| t@)
}

impl View for DynamicExpr {
    type V = Computed;

    open spec fn view(&self) -> Computed {
        match self {
            DynamicExpr::Expression(s) => Computed::Expression(s@),
            DynamicExpr::Interpolated(tokens) => Computed::Interpolated(owned_pieces(tokens@)),
            DynamicExpr::Lua(s) => Computed::Lua(s@),
        }
    }
}

impl Clone for OwnedExprToken {
    fn clone(&self) -> (r: Self)
        ensures
            r == *self,
    {
        match self {
            OwnedExprToken::Literal(s) => OwnedExprToken::Literal(s.clone()),
            OwnedExprToken::Expression(s) => OwnedExprToken::Expression(s.clone()),
        }
    }
}

impl Clone for DynamicExpr {
    fn clone(&self) -> (r: Self)
        ensures
            r@ == self@,
    {
        match self {
            DynamicExpr::Expression(s) => DynamicExpr::Expression(s.clone()),
            DynamicExpr::Interpolated(tokens) => {
                let copy = tokens.clone();
                assert(copy@ =~= tokens@);
                DynamicExpr::Interpolated(copy)
            },
            DynamicExpr::Lua(s) => DynamicExpr::Lua(s.clone()),
        }
    }
}

/// The computed value that a tree stands for: a text with an opening mark, or a text with the
/// tag `lua`.
pub open spec fn classified(t: Tree) -> Option<Computed> {
    match t {
        Tree::Tagged(tag, inner) => if tag == "lua"@ {
            match untagged(*inner) {
                Tree::Text(code) => Some(Computed::Lua(code)),
                _ => None,
            }
        } else {
            None
        },
        Tree::Text(s) => if occurs(s, "${{"@) {
            let p = pieces_of(s);
            if is_standalone(p) {
                Some(Computed::Expression(standalone_expr(p)))
            } else {
                Some(Computed::Interpolated(p))
            }
        } else {
            None
        },
        _ => None,
    }
}

/// The text of pieces.
pub open spec fn rendered(p: Seq<Piece>) -> Seq<char>
    decreases p.len(),
{
    if p.len() == 0 {
        seq![]
    } else {
        rendered(p.drop_last()) + piece_text(p.last())
    }
}

/// The text of one piece.
pub open spec fn piece_text(p: Piece) -> Seq<char> {
    match p {
        Piece::Literal(s) => s,
        Piece::Expression(e) => "${{ "@ + e + " }}$"@,
    }
}

/// The tree that a computed value is written as.
pub open spec fn written(c: Computed) -> Tree {
    match c {
        Computed::Expression(e) => Tree::Text("${{ "@ + e + " }}$"@),
        Computed::Interpolated(p) => Tree::Text(rendered(p)),
        Computed::Lua(code) => Tree::Tagged("lua"@, Box::new(Tree::Text(code))),
    }
}

/// The tokens of a text, for keeping.
fn own_tokens(tokens: &Vec<ExprToken>) -> (r: Vec<OwnedExprToken>)
    ensures
        owned_pieces(r@) == pieces(tokens@),
{
    let mut out: Vec<OwnedExprToken> = Vec::new();
    let mut i: usize = 0;
    while i < tokens.len()
        invariant
            i <= tokens@.len(),
            owned_pieces(out@) == pieces(tokens@).take(i as int),
        decreases tokens@.len() - i,
    {
        let ghost before = owned_pieces(out@);
        let token = match &tokens[i] {
            ExprToken::String(s) => OwnedExprToken::Literal(s.clone()),
            ExprToken::Expression(s) => OwnedExprToken::Expression(s.clone()),
        };
        out.push(token);
        assert(owned_pieces(out@) == before.push(token@));
        assert(pieces(tokens@).take(i + 1) == pieces(tokens@).take(i as int).push(
            tokens@[i as int]@,
        ));
        i += 1;
    }
    assert(pieces(tokens@).take(i as int) == pieces(tokens@));
    out
}

impl DynamicExpr {
    /// The computed value that a tree stands for, if it stands for one. Mappings and sequences
    /// never do: their parts are looked at one by one.
    pub fn classify(value: &Yaml) -> (r: Option<DynamicExpr>)
        ensures
            match r {
                Some(e) => classified(value@) == Some(e@),
                None => classified(value@) is None,
            },
    {
        match value {
            Yaml::Tagged { tag, value: inner } => {
                if same(tag.as_str(), "lua") {
                    match inner.as_str() {
                        Some(code) => Some(DynamicExpr::Lua(code.to_owned())),
                        None => None,
                    }
                } else {
                    None
                }
            },
            Yaml::String(s) => {
                if contains(s.as_str(), "${{") {
                    let tokens = parse_expr_tokens(s.as_str());
                    if is_standalone_tokens(&tokens) {
                        Some(DynamicExpr::Expression(extract_expr_from_standalone(&tokens)))
                    } else {
                        Some(DynamicExpr::Interpolated(own_tokens(&tokens)))
                    }
                } else {
                    None
                }
            },
            _ => None,
        }
    }

    /// The tree that the value is written as.
    pub fn to_yaml_value(&self) -> (r: Yaml)
        ensures
            r@ == written(self@),
    {
        match self {
            DynamicExpr::Expression(e) => Yaml::String(concat3("${{ ", e.as_str(), " }}$")),
            DynamicExpr::Interpolated(tokens) => {
                let mut out: String = String::new();
                let ghost p = owned_pieces(tokens@);
                let mut i: usize = 0;
                assert(p.take(0) == Seq::<Piece>::empty());
                while i < tokens.len()
                    invariant
                        i <= tokens@.len(),
                        p == owned_pieces(tokens@),
                        out@ == rendered(p.take(i as int)),
                    decreases tokens@.len() - i,
                {
                    assert(p.take(i + 1).drop_last() == p.take(i as int));
                    assert(p.take(i + 1).last() == tokens@[i as int]@);
                    match &tokens[i] {
                        OwnedExprToken::Literal(s) => {
                            out.append(s.as_str());
                        },
                        OwnedExprToken::Expression(e) => {
                            out.append(concat3("${{ ", e.as_str(), " }}$").as_str());
                        },
                    }
                    i += 1;
                }
                assert(p.take(i as int) == p);
                Yaml::String(out)
            },
            DynamicExpr::Lua(code) => {
                let inner = Yaml::String(code.clone());
                assert(inner@ == Tree::Text(code@));
                Yaml::Tagged { tag: "lua".to_owned(), value: Box::new(inner) }
            },
        }
    }
}

proof fn lemma_open_mark(s: Seq<char>, i: int)
    ensures
        stands_at(s, "${{"@, i) <==> 0 <= i && i + 3 <= s.len() && s[i] == '$' && s[i + 1] == '{'
            && s[i + 2] == '{',
{
    reveal_strlit("${{");
    if 0 <= i && i + 3 <= s.len() {
        let t = s.subrange(i, i + 3);
        assert(t[0] == s[i] && t[1] == s[i + 1] && t[2] == s[i + 2]);
        if s[i] == '$' && s[i + 1] == '{' && s[i + 2] == '{' {
            assert(t =~= "${{"@);
        }
    }
}

proof fn lemma_close_mark(s: Seq<char>, i: int)
    ensures
        stands_at(s, "}}$"@, i) <==> 0 <= i && i + 3 <= s.len() && s[i] == '}' && s[i + 1] == '}'
            && s[i + 2] == '$',
{
    reveal_strlit("}}$");
    if 0 <= i && i + 3 <= s.len() {
        let t = s.subrange(i, i + 3);
        assert(t[0] == s[i] && t[1] == s[i + 1] && t[2] == s[i + 2]);
        if s[i] == '}' && s[i + 1] == '}' && s[i + 2] == '$' {
            assert(t =~= "}}$"@);
        }
    }
}

proof fn lemma_found_at(s: Seq<char>, pat: Seq<char>, from: int, k: int)
    requires
        0 <= from <= k <= s.len(),
        stands_at(s, pat, k),
        forall|j: int| from <= j < k ==> !(#[trigger] stands_at(s, pat, j)),
    ensures
        find_from(s, pat, from) == k,
{
    lemma_find_from(s, pat, from);
}

/// The pieces of a text that has an expression after a literal piece.
proof fn lemma_pieces_of_parts(lit: Seq<char>, e: Seq<char>, rest: Seq<char>)
    requires
        !occurs(lit, "${{"@),
        !occurs(e, "}}$"@),
        trimmed(e) == e,
    ensures
        pieces_of(lit + ("${{ "@ + e + " }}$"@) + rest) == literal_of(lit) + seq![
            Piece::Expression(e),
        ] + pieces_of(rest),
{
    reveal_strlit("${{");
    reveal_strlit("}}$");
    reveal_strlit("${{ ");
    reveal_strlit(" }}$");
    let mid = "${{ "@ + e + " }}$"@;
    let s = lit + mid + rest;
    let start = lit.len() as int;
    let open = start + 3;
    let n = e.len() as int;
    let end = open + n + 2;
    assert(s[start] == mid[0] && s[start + 1] == mid[1] && s[start + 2] == mid[2] && s[start + 3]
        == mid[3]);
    lemma_open_mark(s, start);
    assert forall|j: int| 0 <= j < start implies !(#[trigger] stands_at(s, "${{"@, j)) by {
        lemma_open_mark(s, j);
        lemma_open_mark(lit, j);
        if j + 3 <= start {
            assert(s[j] == lit[j] && s[j + 1] == lit[j + 1] && s[j + 2] == lit[j + 2]);
            assert(!stands_at(lit, "${{"@, j));
        }
    }
    lemma_found_at(s, "${{"@, 0, start);
    assert forall|k: int| 0 <= k < e.len() implies s[open + 1 + k] == #[trigger] e[k] by {
        assert(mid[4 + k] == e[k]);
    }
    assert(s[end - 1] == mid[n + 4] && s[end] == mid[n + 5] && s[end + 1]
        == mid[n + 6] && s[end + 2] == mid[n + 7]);
    assert(s[end - 1] == ' ' && s[end] == '}' && s[end + 1] == '}' && s[end + 2] == '$');
    lemma_close_mark(s, end);
    assert forall|j: int| open <= j < end implies !(#[trigger] stands_at(s, "}}$"@, j)) by {
        lemma_close_mark(s, j);
        lemma_close_mark(e, j - open - 1);
        if j > open && j + 3 < end {
            let k = j - open - 1;
            assert(s[open + 1 + k] == e[k] && s[open + 1 + (k + 1)] == e[k + 1] && s[open + 1 + (k
                + 2)] == e[k + 2]);
            assert(!stands_at(e, "}}$"@, k));
        }
    }
    lemma_found_at(s, "}}$"@, open, end);
    assert(s.take(start) =~= lit);
    let inner = s.subrange(open, end);
    assert(inner =~= seq![' '] + e + seq![' ']);
    lemma_trimmed_between(e);
    assert(s.skip(end + 3) =~= rest);
}

proof fn lemma_trim_start_fixed(s: Seq<char>)
    ensures
        trim_start(s).len() <= s.len(),
        trim_start(s).len() > 0 ==> !is_space(trim_start(s)[0]),
        trim_start(s) == s.skip(s.len() - trim_start(s).len()),
    decreases s.len(),
{
    if s.len() > 0 && is_space(s[0]) {
        lemma_trim_start_fixed(s.skip(1));
        assert(s.skip(1).skip(s.len() - 1 - trim_start(s).len()) =~= s.skip(
            s.len() - trim_start(s).len(),
        ));
    } else {
        assert(s.skip(0) =~= s);
    }
}

proof fn lemma_trim_end_fixed(s: Seq<char>)
    ensures
        trim_end(s).len() <= s.len(),
        trim_end(s).len() > 0 ==> !is_space(trim_end(s).last()),
        trim_end(s) == s.take(trim_end(s).len() as int),
    decreases s.len(),
{
    if s.len() > 0 && is_space(s.last()) {
        lemma_trim_end_fixed(s.drop_last());
        assert(s.drop_last().take(trim_end(s).len() as int) =~= s.take(trim_end(s).len() as int));
    } else {
        assert(s.take(s.len() as int) =~= s);
    }
}

/// A trimmed text is its own trim, and stands in the text.
proof fn lemma_trimmed_stays(s: Seq<char>)
    ensures
        trimmed(trimmed(s)) == trimmed(s),
        exists|a: int, b: int| 0 <= a <= b <= s.len() && trimmed(s) == #[trigger] s.subrange(a, b),
{
    let t = trim_start(s);
    lemma_trim_start_fixed(s);
    lemma_trim_end_fixed(t);
    let a = s.len() - t.len();
    let b = a + trimmed(s).len();
    assert(trimmed(s) =~= s.subrange(a, b));
    if trimmed(s).len() > 0 {
        assert(trimmed(s)[0] == t[0]);
    }
    lemma_trimmed_fixed(trimmed(s));
}

/// White space around a trimmed text is trimmed away.
proof fn lemma_trimmed_between(e: Seq<char>)
    requires
        trimmed(e) == e,
    ensures
        trimmed(seq![' '] + e + seq![' ']) == e,
{
    let s = seq![' '] + e + seq![' '];
    lemma_trim_start_fixed(e);
    lemma_trim_end_fixed(trim_start(e));
    assert(s.skip(1) =~= e + seq![' ']);
    assert(is_space(' '));
    if e.len() == 0 {
        assert(s.skip(1) =~= seq![' ']);
        assert(s.skip(1).skip(1) =~= e);
        assert(trim_start(s.skip(1)) == trim_start(e));
    } else {
        assert(trim_start(e).len() == e.len());
        assert(trim_start(e) =~= e);
        assert(!is_space(e[0]));
        assert((e + seq![' '])[0] == e[0]);
        assert(trim_start(s) == trim_start(e + seq![' ']));
        assert(trim_start(e + seq![' ']) == e + seq![' ']);
        assert((e + seq![' ']).drop_last() =~= e);
        assert(trim_end(e + seq![' ']) == trim_end(e));
    }
}

/// A text without closing marks is read as literal pieces.
proof fn lemma_no_close_no_expressions(s: Seq<char>)
    requires
        !occurs(s, "}}$"@),
    ensures
        forall|j: int| 0 <= j < pieces_of(s).len() ==> (#[trigger] pieces_of(s)[j]) is Literal,
    decreases s.len(),
{
    reveal_strlit("${{");
    let start = find_from(s, "${{"@, 0);
    lemma_find_from(s, "${{"@, 0);
    if start <= s.len() {
        let open = start + 3;
        lemma_find_from(s, "}}$"@, open);
        let rest = s.skip(open);
        assert forall|i: int| !(#[trigger] stands_at(rest, "}}$"@, i)) by {
            lemma_close_mark(rest, i);
            lemma_close_mark(s, open + i);
            assert(!stands_at(s, "}}$"@, open + i));
        }
        lemma_no_close_no_expressions(rest);
    }
}

proof fn lemma_rendered_add(a: Seq<Piece>, b: Seq<Piece>)
    ensures
        rendered(a + b) == rendered(a) + rendered(b),
    decreases b.len(),
{
    if b.len() == 0 {
        assert(a + b =~= a);
        assert(rendered(a) + rendered(b) =~= rendered(a));
    } else {
        lemma_rendered_add(a, b.drop_last());
        assert((a + b).drop_last() =~= a + b.drop_last());
        assert((a + b).last() == b.last());
        assert(rendered(a) + rendered(b) =~= rendered(a) + rendered(b.drop_last()) + piece_text(
            b.last(),
        ));
    }
}

proof fn lemma_rendered_one(p: Piece)
    ensures
        rendered(seq![p]) == piece_text(p),
{
    let one = seq![p];
    assert(one.drop_last() =~= Seq::<Piece>::empty());
    assert(rendered(one.drop_last()) =~= Seq::<char>::empty());
    assert(Seq::<char>::empty() + piece_text(p) =~= piece_text(p));
}

proof fn lemma_rendered_literals(p: Seq<Piece>)
    requires
        forall|j: int| 0 <= j < p.len() ==> (#[trigger] p[j]) is Literal,
    ensures
        rendered(p) == literal_text(p),
    decreases p.len(),
{
    if p.len() > 0 {
        let q = p.drop_last();
        assert forall|j: int| 0 <= j < q.len() implies (#[trigger] q[j]) is Literal by {
            assert(q[j] == p[j]);
        }
        lemma_rendered_literals(q);
        assert(p[p.len() - 1] is Literal);
    }
}

/// An expression that is read is trimmed and has no closing mark in it.
proof fn lemma_expression_fine(s: Seq<char>, k: int)
    requires
        0 <= k < pieces_of(s).len(),
        pieces_of(s)[k] is Expression,
    ensures
        trimmed(pieces_of(s)[k]->Expression_0) == pieces_of(s)[k]->Expression_0,
        !occurs(pieces_of(s)[k]->Expression_0, "}}$"@),
    decreases s.len(),
{
    reveal_strlit("${{");
    reveal_strlit("}}$");
    let start = find_from(s, "${{"@, 0);
    lemma_find_from(s, "${{"@, 0);
    if start <= s.len() {
        let open = start + 3;
        let end = find_from(s, "}}$"@, open);
        lemma_find_from(s, "}}$"@, open);
        let lit = literal_of(s.take(start));
        if end <= s.len() {
            let inner = s.subrange(open, end);
            let e = trimmed(inner);
            let rest = s.skip(end + 3);
            assert(pieces_of(s) == lit + seq![Piece::Expression(e)] + pieces_of(rest));
            if k == lit.len() {
                lemma_trimmed_stays(inner);
                let (a, b) = choose|a: int, b: int|
                    0 <= a <= b <= inner.len() && e == #[trigger] inner.subrange(a, b);
                assert forall|i: int| !(#[trigger] stands_at(e, "}}$"@, i)) by {
                    lemma_close_mark(e, i);
                    lemma_close_mark(s, open + a + i);
                    if 0 <= i && i + 3 <= e.len() {
                        assert(e[i] == inner[a + i] && e[i + 1] == inner[a + i + 1] && e[i + 2]
                            == inner[a + i + 2]);
                        assert(!stands_at(s, "}}$"@, open + a + i));
                    }
                }
            } else if k > lit.len() {
                assert(pieces_of(s)[k] == pieces_of(rest)[k - lit.len() - 1]);
                lemma_expression_fine(rest, k - lit.len() - 1);
            }
        } else {
            let rest = s.skip(open);
            assert(pieces_of(s) == lit + seq![Piece::Literal("${{"@)] + pieces_of(rest));
            if k > lit.len() {
                assert(pieces_of(s)[k] == pieces_of(rest)[k - lit.len() - 1]);
                lemma_expression_fine(rest, k - lit.len() - 1);
            }
        }
    }
}

/// A text that is read, written again and read again has the same pieces.
pub proof fn law_pieces_round_trip(s: Seq<char>)
    ensures
        pieces_of(rendered(pieces_of(s))) == pieces_of(s),
        occurs(s, "${{"@) ==> occurs(rendered(pieces_of(s)), "${{"@),
    decreases s.len(),
{
    reveal_strlit("${{");
    reveal_strlit("}}$");
    reveal_strlit("${{ ");
    let start = find_from(s, "${{"@, 0);
    lemma_find_from(s, "${{"@, 0);
    lemma_occurs_iff_found(s, "${{"@);
    if start > s.len() {
        if s.len() > 0 {
            lemma_rendered_one(Piece::Literal(s));
        } else {
            assert(rendered(pieces_of(s)) =~= s);
        }
    } else {
        let open = start + 3;
        let end = find_from(s, "}}$"@, open);
        lemma_find_from(s, "}}$"@, open);
        let before = s.take(start);
        let lit = literal_of(before);
        if before.len() > 0 {
            lemma_rendered_one(Piece::Literal(before));
        } else {
            assert(rendered(lit) =~= before);
        }
        if end <= s.len() {
            let e = trimmed(s.subrange(open, end));
            let piece = Piece::Expression(e);
            let rest = s.skip(end + 3);
            let p = lit + seq![piece] + pieces_of(rest);
            assert(pieces_of(s) == p);
            lemma_expression_fine(s, lit.len() as int);
            lemma_rendered_add(lit + seq![piece], pieces_of(rest));
            lemma_rendered_add(lit, seq![piece]);
            lemma_rendered_one(piece);
            assert forall|i: int| !(#[trigger] stands_at(before, "${{"@, i)) by {
                lemma_open_mark(before, i);
                lemma_open_mark(s, i);
                if 0 <= i && i + 3 <= before.len() {
                    assert(!stands_at(s, "${{"@, i));
                }
            }
            law_pieces_round_trip(rest);
            lemma_pieces_of_parts(before, e, rendered(pieces_of(rest)));
            let text = rendered(p);
            assert(text == before + ("${{ "@ + e + " }}$"@) + rendered(pieces_of(rest)));
            lemma_open_mark(text, start);
            assert(stands_at(text, "${{"@, start));
        } else {
            let rest = s.skip(open);
            let p = lit + seq![Piece::Literal("${{"@)] + pieces_of(rest);
            assert(pieces_of(s) == p);
            assert forall|i: int| !(#[trigger] stands_at(rest, "}}$"@, i)) by {
                lemma_close_mark(rest, i);
                lemma_close_mark(s, open + i);
                if 0 <= i && i + 3 <= rest.len() {
                    assert(!stands_at(s, "}}$"@, open + i));
                }
            }
            lemma_no_close_no_expressions(rest);
            assert forall|j: int| 0 <= j < p.len() implies (#[trigger] p[j]) is Literal by {
                if j > lit.len() {
                    assert(p[j] == pieces_of(rest)[j - lit.len() - 1]);
                }
            }
            lemma_rendered_literals(p);
            law_text_without_expressions_kept(s);
        }
    }
}

/// A computed value that is read from a tree is read again from what it is written as.
pub proof fn law_computed_round_trip(t: Tree)
    requires
        classified(t) is Some,
    ensures
        classified(written(classified(t)->0)) == classified(t),
{
    if let Tree::Text(s) = t {
        let p = pieces_of(s);
        law_pieces_round_trip(s);
        if is_standalone(p) {
            let k = choose|k: int| alone_at(p, k);
            let e = standalone_expr(p);
            lemma_expression_fine(s, k);
            let none = Seq::<char>::empty();
            reveal_strlit("${{ ");
            reveal_strlit("${{");
            let text = "${{ "@ + e + " }}$"@;
            lemma_pieces_of_parts(none, e, none);
            assert(none + text + none =~= text);
            assert(pieces_of(none) =~= Seq::<Piece>::empty()) by {
                lemma_find_from(none, "${{"@, 0);
            }
            let one = seq![Piece::Expression(e)];
            assert(literal_of(none) + one + pieces_of(none) =~= one);
            lemma_open_mark(text, 0);
            assert(stands_at(text, "${{"@, 0));
            assert(alone_at(one, 0));
        }
    }
}

/// Between its marks an expression is read as such, without the white space around it; the text
/// before it is a literal, and the text behind it is read in the same way.
pub proof fn law_expression_between_marks(lit: Seq<char>, e: Seq<char>, rest: Seq<char>, s: Seq<char>)
    requires
        !occurs(lit, "${{"@),
        !occurs(e, "}}$"@),
        trimmed(e) == e,
        s == lit + ("${{ "@ + e + " }}$"@) + rest,
    ensures
        lit.len() > 0 ==> pieces_of(s) == seq![Piece::Literal(lit), Piece::Expression(e)]
            + pieces_of(rest),
        lit.len() == 0 ==> pieces_of(s) == seq![Piece::Expression(e)] + pieces_of(rest),
{
    lemma_pieces_of_parts(lit, e, rest);
    if lit.len() > 0 {
        assert(literal_of(lit) + seq![Piece::Expression(e)] =~= seq![
            Piece::Literal(lit),
            Piece::Expression(e),
        ]);
    } else {
        assert(literal_of(lit) + seq![Piece::Expression(e)] =~= seq![Piece::Expression(e)]);
    }
}

/// A text is computed exactly if an opening mark occurs in it, and a value with the tag `lua` if it
/// is a text; nothing else is computed.
pub proof fn law_what_is_computed(v: Yaml, r: Option<DynamicExpr>)
    requires
        call_ensures(DynamicExpr::classify, (&v,), r),
    ensures
        v matches Yaml::String(s) ==> (r is Some <==> occurs(s@, "${{"@)),
        v matches Yaml::Tagged { tag, value } ==> {
            &&& tag@ != "lua"@ ==> r is None
            &&& tag@ == "lua"@ ==> (*value matches Yaml::String(code) ==> (r matches Some(
                DynamicExpr::Lua(c),
            ) && c@ == code@))
        },
        v is Null || v is Bool || v is Number || v is Sequence || v is Mapping ==> r is None,
{
    broadcast use crate::value::lemma_tree_parts;

    if let Yaml::Tagged { tag, value } = v {
        assert(v@ == Tree::Tagged(tag@, Box::new(value@)));
    }
}

} // verus!
