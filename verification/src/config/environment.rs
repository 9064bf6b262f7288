//! Environment variables of a service as they are written.
use vstd::prelude::*;
use vstd::string::*;
use crate::config::config_value::ConfigValue;
use crate::config::expand::Piece;
use crate::config::expr::{classified, owned_pieces, Computed, DynamicExpr, OwnedExprToken};
use crate::config::read::{items_in, read_text_list};
use crate::shown::{show, shown};
use crate::number::decimal;
use crate::text::{concat, concat3, occurs, same};
use crate::value::{
    bool_text, entry_trees, format_bool, lemma_tree_parts, numeral_text, Number, Tree, Yaml,
    untagged,
};

verus! {

/// Environment variables, each written as `KEY=VALUE`.
#[derive(Debug)]
pub struct EnvironmentEntries(pub Vec<ConfigValue<String>>);

/// The model of one variable: its text, or what its text is computed from.
#[verifier::ext_equal]
pub enum TextField {
    Known(Seq<char>),
    Computed(Computed),
}

/// The model of a text field.
pub open spec fn text_field(v: ConfigValue<String>) -> TextField {
    match v {
        ConfigValue::Static(s) => TextField::Known(s@),
        ConfigValue::Dynamic(e) => TextField::Computed(e@),
    }
}

/// The models of a list of text fields.
pub open spec fn text_fields(list: Seq<ConfigValue<String>>) -> Seq<TextField> {
    list.map_values(|v: ConfigValue<String>| text_field(v))
}

impl Default for EnvironmentEntries {
    fn default() -> (r: Self)
        ensures
            r.0@.len() == 0,
    {
        EnvironmentEntries(Vec::new())
    }
}

impl Clone for EnvironmentEntries {
    fn clone(&self) -> (r: Self)
        ensures
            cloned(self.0, r.0),
    {
        EnvironmentEntries(self.0.clone())
    }
}

/// A copy of a list of text fields is the same list.
pub proof fn lemma_text_fields_cloned(a: Vec<ConfigValue<String>>, b: Vec<ConfigValue<String>>)
    requires
        cloned(a, b),
    ensures
        text_fields(a@) == text_fields(b@),
{
    assert forall|i: int| 0 <= i < a@.len() implies text_field(a@[i]) == text_field(b@[i]) by {
        assert(cloned(a@[i], b@[i]));
        if let (ConfigValue::Static(x), ConfigValue::Static(y)) = (a@[i], b@[i]) {
            assert(cloned(x, y));
        }
    }
    assert(text_fields(a@) =~= text_fields(b@));
}

impl EnvironmentEntries {
    /// The variables with known texts.
    pub fn from_static(v: Vec<String>) -> (r: Self)
        ensures
            r.0@ == v@.map_values(|s: String| ConfigValue::Static(s)),
    {
        EnvironmentEntries(ConfigValue::wrap_vec(v))
    }
}

/// The variable that an entry of a mapping stands for, where `prefix` is the key and an equals
/// sign: nothing behind the sign for null, the text of a truth value or a number, a text with
/// its expressions, and code as one expression. Anything else stands for no variable.
pub open spec fn map_entry(prefix: Seq<char>, value: Tree) -> Option<TextField> {
    match value {
        Tree::Null => Some(TextField::Known(prefix)),
        Tree::Bool(b) => Some(TextField::Known(prefix + bool_text(b))),
        Tree::Number(n) => Some(TextField::Known(prefix + numeral_text(n))),
        Tree::Text(s) => match classified(value) {
            None => Some(TextField::Known(prefix + s)),
            Some(Computed::Expression(e)) => Some(
                TextField::Computed(
                    Computed::Interpolated(seq![Piece::Literal(prefix), Piece::Expression(e)]),
                ),
            ),
            Some(Computed::Interpolated(p)) => Some(
                TextField::Computed(Computed::Interpolated(seq![Piece::Literal(prefix)] + p)),
            ),
            Some(Computed::Lua(_)) => None,
        },
        Tree::Tagged(tag, inner) => if tag == "lua"@ {
            match untagged(*inner) {
                Tree::Text(code) => Some(
                    TextField::Computed(
                        Computed::Interpolated(
                            seq![
                                Piece::Literal(prefix),
                                Piece::Expression("(function() "@ + code + " end)()"@),
                            ],
                        ),
                    ),
                ),
                _ => None,
            }
        } else {
            None
        },
        _ => None,
    }
}

/// The message on a mapping entry that stands for no variable.
pub open spec fn map_entry_fault(prefix: Seq<char>, value: Tree) -> Seq<char> {
    if value is Tagged && value->Tagged_0 == "lua"@ {
        "!lua tag value must be a string for environment map entry '"@ + prefix + "'"@
    } else {
        "unsupported value type for environment map entry '"@ + prefix + "': "@ + shown(value)
    }
}

/// The message on a value that stands for no variable.
fn unsupported(prefix: &str, value: &Yaml) -> (r: String)
    ensures
        r@ == "unsupported value type for environment map entry '"@ + prefix@ + "': "@ + shown(
            value@,
        ),
{
    let head = concat3("unsupported value type for environment map entry '", prefix, "': ");
    concat(head.as_str(), show(value).as_str())
}

/// A computed text of a literal piece and an expression.
fn literal_and_expression(prefix: &str, expr: String) -> (r: ConfigValue<String>)
    ensures
        text_field(r) == TextField::Computed(
            Computed::Interpolated(seq![Piece::Literal(prefix@), Piece::Expression(expr@)]),
        ),
{
    let ghost e = expr@;
    let mut tokens: Vec<OwnedExprToken> = Vec::new();
    tokens.push(OwnedExprToken::Literal(prefix.to_owned()));
    tokens.push(OwnedExprToken::Expression(expr));
    assert(owned_pieces(tokens@) == seq![Piece::Literal(prefix@), Piece::Expression(e)]);
    ConfigValue::Dynamic(Box::new(DynamicExpr::Interpolated(tokens)))
}

/// The variable that an entry of a mapping stands for.
pub fn environment_map_entry(prefix: &str, value: &Yaml) -> (r: Result<ConfigValue<String>, String>)
    ensures
        match r {
            Ok(v) => map_entry(prefix@, value@) == Some(text_field(v)),
            Err(e) => map_entry(prefix@, value@) is None && e@ == map_entry_fault(prefix@, value@),
        },
{
    match value {
        Yaml::Null => Ok(ConfigValue::Static(prefix.to_owned())),
        Yaml::Bool(b) => Ok(ConfigValue::Static(concat(prefix, format_bool(*b).as_str()))),
        Yaml::Number(n) => Ok(ConfigValue::Static(concat(prefix, n.format().as_str()))),
        Yaml::String(s) => match DynamicExpr::classify(value) {
            None => Ok(ConfigValue::Static(concat(prefix, s.as_str()))),
            Some(DynamicExpr::Expression(e)) => Ok(literal_and_expression(prefix, e)),
            Some(DynamicExpr::Interpolated(tokens)) => {
                let ghost p = owned_pieces(tokens@);
                let mut all = tokens;
                all.insert(0, OwnedExprToken::Literal(prefix.to_owned()));
                assert(owned_pieces(all@) == seq![Piece::Literal(prefix@)] + p);
                Ok(ConfigValue::Dynamic(Box::new(DynamicExpr::Interpolated(all))))
            },
            Some(DynamicExpr::Lua(_)) => Err(unsupported(prefix, value)),
        },
        Yaml::Tagged { tag, value: inner } => {
            if same(tag.as_str(), "lua") {
                match inner.as_str() {
                    Some(code) => Ok(
                        literal_and_expression(prefix, concat3("(function() ", code, " end)()")),
                    ),
                    None => Err(
                        concat3(
                            "!lua tag value must be a string for environment map entry '",
                            prefix,
                            "'",
                        ),
                    ),
                }
            } else {
                Err(unsupported(prefix, value))
            }
        },
        _ => Err(unsupported(prefix, value)),
    }
}

/// The key of a mapping entry: a text, a number or a truth value.
pub open spec fn env_key(key: Tree) -> Option<Seq<char>> {
    match key {
        Tree::Text(s) => Some(s),
        Tree::Number(n) => Some(numeral_text(n)),
        Tree::Bool(b) => Some(bool_text(b)),
        _ => None,
    }
}

/// The variables of the first `n` entries of a mapping; the first entry that is wrong counts.
pub open spec fn map_entries(entries: Seq<(Tree, Tree)>, n: nat) -> Result<
    Seq<TextField>,
    Seq<char>,
>
    decreases n,
{
    if n == 0 || n > entries.len() {
        Ok(seq![])
    } else {
        match map_entries(entries, (n - 1) as nat) {
            Err(e) => Err(e),
            Ok(done) => match env_key(entries[n - 1].0) {
                None => Err(
                    "environment map key must be a string, got: "@ + shown(entries[n - 1].0),
                ),
                Some(key) => match map_entry(key + "="@, entries[n - 1].1) {
                    Some(f) => Ok(done.push(f)),
                    None => Err(map_entry_fault(key + "="@, entries[n - 1].1)),
                },
            },
        }
    }
}

/// The variables that a tree stands for: none for null, those of a sequence, those of a mapping.
/// Anything else, and a sequence or a mapping with a wrong part, is an error.
pub open spec fn environment_of(t: Tree) -> Result<Seq<TextField>, Seq<char>> {
    match t {
        Tree::Null => Ok(seq![]),
        Tree::Sequence(items) => items_in(items, items.len()),
        Tree::Mapping(entries) => map_entries(entries, entries.len()),
        _ => Err("environment must be a sequence, mapping, or null"@),
    }
}

proof fn lemma_entries_stop(entries: Seq<(Tree, Tree)>, n: nat)
    requires
        n <= entries.len(),
        map_entries(entries, n) is Err,
    ensures
        map_entries(entries, entries.len()) == map_entries(entries, n),
    decreases entries.len() - n,
{
    if n < entries.len() {
        lemma_entries_stop(entries, n + 1);
    }
}

impl EnvironmentEntries {
    /// The variables that a tree stands for: none for null, those of a sequence of texts, those
    /// of a mapping from keys to values.
    pub fn from_value(value: &Yaml) -> (r: Result<EnvironmentEntries, String>)
        ensures
            match r {
                Ok(e) => environment_of(value@) == Ok::<Seq<TextField>, Seq<char>>(
                    text_fields(e.0@),
                ),
                Err(e) => environment_of(value@) == Err::<Seq<TextField>, Seq<char>>(e@),
            },
    {
        broadcast use lemma_tree_parts;

        match value {
            Yaml::Null => {
                let r = EnvironmentEntries(Vec::new());
                assert(text_fields(r.0@) == Seq::<TextField>::empty());
                Ok(r)
            },
            Yaml::Sequence(_) => match read_text_list(value) {
                Ok(list) => Ok(EnvironmentEntries(list)),
                Err(e) => Err(e),
            },
            Yaml::Mapping(entries) => {
                let ghost all = entry_trees(entries@);
                let mut out: Vec<ConfigValue<String>> = Vec::new();
                let mut i: usize = 0;
                assert(text_fields(out@) == Seq::<TextField>::empty());
                while i < entries.len()
                    invariant
                        i <= entries@.len(),
                        all == entry_trees(entries@),
                        value@ == Tree::Mapping(all),
                        map_entries(all, i as nat) == Ok::<Seq<TextField>, Seq<char>>(
                            text_fields(out@),
                        ),
                    decreases entries@.len() - i,
                {
                    let ghost before = text_fields(out@);
                    assert(all[i as int] == (entries@[i as int].0@, entries@[i as int].1@));
                    let key = match &entries[i].0 {
                        Yaml::String(s) => s.clone(),
                        Yaml::Number(n) => n.format(),
                        Yaml::Bool(b) => format_bool(*b),
                        _ => {
                            proof {
                                lemma_entries_stop(all, (i + 1) as nat);
                            }
                            return Err(
                                concat(
                                    "environment map key must be a string, got: ",
                                    show(&entries[i].0).as_str(),
                                ),
                            );
                        },
                    };
                    let prefix = concat(key.as_str(), "=");
                    match environment_map_entry(prefix.as_str(), &entries[i].1) {
                        Ok(f) => {
                            out.push(f);
                            assert(text_fields(out@) == before.push(text_field(f)));
                        },
                        Err(e) => {
                            proof {
                                lemma_entries_stop(all, (i + 1) as nat);
                            }
                            return Err(e);
                        },
                    }
                    i += 1;
                }
                Ok(EnvironmentEntries(out))
            },
            _ => Err("environment must be a sequence, mapping, or null".to_owned()),
        }
    }
}

/// What a variable of a mapping is set to: nothing for null, the word of a truth value, the digits
/// of a number, and a text without marks as it is. A list or a mapping cannot be its value.
pub proof fn law_values_of_variables(
    prefix: &str,
    value: Yaml,
    r: Result<ConfigValue<String>, String>,
)
    requires
        call_ensures(environment_map_entry, (prefix, &value), r),
    ensures
        match value {
            Yaml::Null => r matches Ok(ConfigValue::Static(s)) && s@ == prefix@,
            Yaml::Bool(b) => r matches Ok(ConfigValue::Static(s)) && s@ == prefix@ + (if b {
                "true"@
            } else {
                "false"@
            }),
            Yaml::Number(Number::Unsigned(n)) => r matches Ok(ConfigValue::Static(s)) && s@
                == prefix@ + decimal(n as nat),
            Yaml::String(t) => !occurs(t@, "${{"@) ==> (r matches Ok(ConfigValue::Static(s)) && s@
                == prefix@ + t@),
            Yaml::Sequence(_) => r is Err,
            Yaml::Mapping(_) => r is Err,
            _ => true,
        },
{
    broadcast use lemma_tree_parts;

}

/// A mapping sets each key to its value, in order; null sets nothing; and a plain text or a number
/// is no environment.
pub proof fn law_mapping_sets_variables(
    entries: Vec<(Yaml, Yaml)>,
    r: Result<EnvironmentEntries, String>,
    none: Result<EnvironmentEntries, String>,
    text: String,
    wrong: Result<EnvironmentEntries, String>,
    k: int,
)
    requires
        call_ensures(EnvironmentEntries::from_value, (&Yaml::Mapping(entries),), r),
        call_ensures(EnvironmentEntries::from_value, (&Yaml::Null,), none),
        call_ensures(EnvironmentEntries::from_value, (&Yaml::String(text),), wrong),
        0 <= k < entries@.len(),
        entries@[k].0 is String,
        entries@[k].1 is String,
        !occurs(entries@[k].1->String_0@, "${{"@),
    ensures
        none is Ok && none->Ok_0.0@.len() == 0,
        wrong is Err,
        r matches Ok(e) ==> e.0@.len() == entries@.len() && (e.0@[k] matches ConfigValue::Static(s)
            && s@ == entries@[k].0->String_0@ + seq!['='] + entries@[k].1->String_0@),
{
    broadcast use lemma_tree_parts;

    let v = Yaml::Mapping(entries);
    let list = entry_trees(entries@);
    assert(v@ == Tree::Mapping(list));
    assert(list[k] == (entries@[k].0@, entries@[k].1@));
    reveal_strlit("=");
    assert("="@ =~= seq!['=']);
    assert(text_fields(none->Ok_0.0@).len() == none->Ok_0.0@.len());
    lemma_map_entry_at(list, list.len(), k);
    if let Ok(e) = r {
        assert(text_fields(e.0@).len() == e.0@.len());
        assert(text_fields(e.0@)[k] == text_field(e.0@[k]));
    }
}

/// What the variables of a mapping hold at a place.
proof fn lemma_map_entry_at(entries: Seq<(Tree, Tree)>, n: nat, k: int)
    requires
        n <= entries.len(),
    ensures
        map_entries(entries, n) matches Ok(f) ==> f.len() == n && (0 <= k < n ==> (env_key(
            entries[k].0,
        ) matches Some(key) && map_entry(key + "="@, entries[k].1) == Some(f[k]))),
    decreases n,
{
    if n > 0 {
        lemma_map_entry_at(entries, (n - 1) as nat, k);
    }
}

} // verus!
