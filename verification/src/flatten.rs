//! Flattening of nested configuration documents to dot-joined keys.
//!
//! A parsed TOML or YAML document becomes a [`ConfigTree`]; flattening a
//! tree yields one entry per scalar, keyed by the dot-joined path of
//! section names, with arrays rendered as one comma-joined text. The
//! parsers of the `toml` and `serde_yaml` crates stand behind trusted
//! wrappers; the flattening itself is verified.

use vstd::prelude::*;
use vstd::string::StringExecFns;
use crate::strutil::{bool_text, dec_int_text, i64_to_string, kv_view, lemma_kv_view_concat};

verus! {

/// A parsed configuration document: scalars, lists and tables of named
/// subtrees. Integer and boolean scalars keep their typed values, so that
/// their rendering is the verified decimal and `true`/`false` forms; a
/// text leaf carries scalars that only the parser can render, such as
/// floats and datetimes.
#[derive(Debug, PartialEq)]
pub enum ConfigTree {
    /// A scalar already rendered to text.
    Leaf(String),
    /// An integer scalar.
    Int(i64),
    /// A boolean scalar.
    Flag(bool),
    /// An array of subtrees.
    List(Vec<ConfigTree>),
    /// A mapping from names to subtrees.
    Table(Vec<(String, ConfigTree)>),
}

/// The text a tree renders to when it stands at a scalar position: a text
/// leaf gives its own text, an integer its decimal digits, a boolean
/// `true` or `false`, and a list joins its items with commas. A table has
/// no scalar rendering; the parsers never place one inside a list.
pub open spec fn render_tree(t: ConfigTree) -> Seq<char>
    decreases t,
{
    match t {
        ConfigTree::Leaf(s) => s@,
        ConfigTree::Int(i) => dec_int_text(i as int),
        ConfigTree::Flag(b) => if b {
            "true"@
        } else {
            "false"@
        },
        ConfigTree::List(items) => render_items(items@),
        ConfigTree::Table(_) => Seq::empty(),
    }
}

/// The comma-joined rendering of a sequence of trees.
pub open spec fn render_items(items: Seq<ConfigTree>) -> Seq<char>
    decreases items,
{
    if items.len() == 0 {
        Seq::empty()
    } else if items.len() == 1 {
        render_tree(items[0])
    } else {
        render_items(items.drop_last()) + ","@ + render_tree(items.last())
    }
}

/// The key for an entry under a prefix: the name itself at the root, and
/// the dot-joined path below it.
pub open spec fn joined_key(prefix: Seq<char>, name: Seq<char>) -> Seq<char> {
    if prefix.len() == 0 {
        name
    } else {
        prefix + "."@ + name
    }
}

/// The flat entries of a tree under a prefix: a table contributes its
/// entries under extended keys, and anything else one entry at the prefix,
/// or none at the root.
pub open spec fn flat_of(t: ConfigTree, prefix: Seq<char>) -> Seq<(Seq<char>, Seq<char>)>
    decreases t,
{
    match t {
        ConfigTree::Table(pairs) => flat_of_pairs(pairs@, prefix),
        _ => if prefix.len() == 0 {
            Seq::empty()
        } else {
            seq![(prefix, render_tree(t))]
        },
    }
}

/// The flat entries of a table's pairs under a prefix, in order.
pub open spec fn flat_of_pairs(
    pairs: Seq<(String, ConfigTree)>,
    prefix: Seq<char>,
) -> Seq<(Seq<char>, Seq<char>)>
    decreases pairs,
{
    if pairs.len() == 0 {
        Seq::empty()
    } else {
        flat_of_pairs(pairs.drop_last(), prefix) + flat_of(
            pairs.last().1,
            joined_key(prefix, pairs.last().0@),
        )
    }
}

/// Renders a tree at a scalar position: a leaf's own text, or a list's
/// items joined with commas.
#[verifier::loop_isolation(false)]
pub fn render_value(t: &ConfigTree) -> (r: String)
    ensures
        r@ == render_tree(*t),
    decreases t,
{
    match t {
        ConfigTree::Leaf(s) => s.clone(),
        ConfigTree::Int(i) => i64_to_string(*i),
        ConfigTree::Flag(b) => bool_text(*b),
        ConfigTree::List(items) => {
            let n = items.len();
            let mut out = String::new();
            let mut i: usize = 0;
            while i < n
                invariant
                    n == items@.len(),
                    i <= n,
                    out@ == render_items(items@.take(i as int)),
                decreases n - i,
            {
                proof {
                    assert(decreases_to!(*t => *items));
                    assert(decreases_to!(*items => items@));
                    assert(decreases_to!(items@ => items@[i as int]));
                }
                let piece = render_value(&items[i]);
                if i > 0 {
                    out.append(",");
                }
                out.append(piece.as_str());
                proof {
                    assert(items@.take(i + 1).drop_last() =~= items@.take(i as int));
                    assert(items@.take(i + 1).last() == items@[i as int]);
                    if i == 0 {
                        assert(items@.take(1)[0] == items@[0]);
                    }
                }
                i += 1;
            }
            proof {
                assert(items@.take(n as int) =~= items@);
            }
            out
        },
        ConfigTree::Table(_) => String::new(),
    }
}

/// Flattens a tree under a prefix to its flat entries, in order.
#[verifier::loop_isolation(false)]
pub fn flatten_tree(t: &ConfigTree, prefix: &str) -> (r: Vec<(String, String)>)
    ensures
        kv_view(r@) == flat_of(*t, prefix@),
    decreases t,
{
    match t {
        ConfigTree::Table(pairs) => {
            let n = pairs.len();
            let mut out: Vec<(String, String)> = Vec::new();
            let mut i: usize = 0;
            while i < n
                invariant
                    n == pairs@.len(),
                    i <= n,
                    kv_view(out@) == flat_of_pairs(pairs@.take(i as int), prefix@),
                decreases n - i,
            {
                proof {
                    assert(decreases_to!(*t => *pairs));
                    assert(decreases_to!(*pairs => pairs@));
                    assert(decreases_to!(pairs@ => pairs@[i as int]));
                    assert(decreases_to!(pairs@[i as int] => pairs@[i as int].1));
                }
                let full_key = if prefix.is_empty() {
                    pairs[i].0.clone()
                } else {
                    prefix.to_owned().concat(".").concat(pairs[i].0.as_str())
                };
                proof {
                    assert(full_key@ == joined_key(prefix@, pairs@[i as int].0@));
                }
                let ghost before = out@;
                let mut sub = flatten_tree(&pairs[i].1, full_key.as_str());
                let ghost subseq = sub@;
                let ghost subview = kv_view(sub@);
                out.append(&mut sub);
                proof {
                    assert(out@ == before + subseq);
                    lemma_kv_view_concat(before, subseq);
                    assert(kv_view(out@) == kv_view(before) + subview);
                    assert(pairs@.take(i + 1).drop_last() =~= pairs@.take(i as int));
                    assert(pairs@.take(i + 1).last() == pairs@[i as int]);
                    assert(kv_view(out@) == flat_of_pairs(pairs@.take(i + 1), prefix@));
                }
                i += 1;
            }
            proof {
                assert(pairs@.take(n as int) =~= pairs@);
            }
            out
        },
        _ => {
            if prefix.is_empty() {
                proof {
                    assert(kv_view(Seq::<(String, String)>::empty())
                        =~= Seq::<(Seq<char>, Seq<char>)>::empty());
                }
                Vec::new()
            } else {
                let rendered = render_value(t);
                let mut out: Vec<(String, String)> = Vec::new();
                out.push((prefix.to_owned(), rendered));
                proof {
                    assert(out@.drop_last() =~= Seq::<(String, String)>::empty());
                    assert(kv_view(out@) =~= flat_of(*t, prefix@));
                }
                out
            }
        },
    }
}

#[verifier::external_type_specification]
#[verifier::external_body]
pub struct ExTomlValue(toml::Value);

/// The tree that the TOML parser produces for a text, if it parses.
pub uninterp spec fn toml_tree_of(s: Seq<char>) -> Option<ConfigTree>;

/// Relies on the `toml` crate: an array element becomes a subtree, but a
/// table inside an array keeps the crate's serialized text, as at a
/// scalar position.
#[verifier::external_body]
fn toml_item_tree(x: toml::Value) -> ConfigTree {
    if x.is_table() {
        ConfigTree::Leaf(x.to_string())
    } else {
        tree_of_toml(x)
    }
}

/// Relies on the `toml` crate: turns one parsed TOML value into a tree,
/// one variant at a time, moving fields only. Integers and booleans keep
/// their typed values, so their rendering stays verified; floats and
/// datetimes keep the crate's text forms.
#[verifier::external_body]
fn tree_of_toml(v: toml::Value) -> ConfigTree {
    match v {
        toml::Value::String(s) => ConfigTree::Leaf(s),
        toml::Value::Integer(i) => ConfigTree::Int(i),
        toml::Value::Float(f) => ConfigTree::Leaf(f.to_string()),
        toml::Value::Boolean(b) => ConfigTree::Flag(b),
        toml::Value::Datetime(d) => ConfigTree::Leaf(d.to_string()),
        toml::Value::Array(items) => ConfigTree::List(
            items.into_iter().map(toml_item_tree).collect(),
        ),
        toml::Value::Table(table) => ConfigTree::Table(
            table.into_iter().map(|(k, x)| (k, tree_of_toml(x))).collect(),
        ),
    }
}

/// Relies on `toml::Table`'s `FromStr`: parsing a document depends on
/// the content alone, so the result carries the name `toml_tree_of`.
#[verifier::external_body]
pub fn parse_toml_tree(content: &str) -> (r: Option<ConfigTree>)
    ensures
        r == toml_tree_of(content@),
{
    match content.parse::<toml::Table>() {
        Ok(table) => Some(tree_of_toml(toml::Value::Table(table))),
        Err(_) => None,
    }
}

#[verifier::external_type_specification]
#[verifier::external_body]
pub struct ExYamlValue(serde_yaml::Value);

/// The tree that the YAML parser produces for a text, if it parses.
pub uninterp spec fn yaml_tree_of(s: Seq<char>) -> Option<ConfigTree>;

/// Relies on the `serde_yaml` crate: a sequence element becomes a
/// subtree, but a mapping or tagged value inside a sequence keeps its
/// debug text, as at a scalar position.
#[verifier::external_body]
fn yaml_item_tree(x: serde_yaml::Value) -> ConfigTree {
    match x {
        serde_yaml::Value::Mapping(_) | serde_yaml::Value::Tagged(_) => {
            ConfigTree::Leaf(format!("{:?}", x))
        },
        _ => tree_of_yaml(x),
    }
}

/// Relies on the `serde_yaml` crate: a mapping entry names a table entry
/// only when its key is a string, as in the mapping rule; an entry with
/// any other key is left out.
#[verifier::external_body]
fn yaml_table_entry(k: serde_yaml::Value, x: serde_yaml::Value) -> Option<(String, ConfigTree)> {
    match k {
        serde_yaml::Value::String(name) => Some((name, tree_of_yaml(x))),
        _ => None,
    }
}

/// Relies on the `serde_yaml` crate: turns one parsed YAML value into a
/// tree, one variant at a time, moving fields only. Booleans keep their
/// typed values; a number is told apart by `Number::as_i64` and keeps its
/// integer value where it has one, so that integer and boolean rendering
/// stays verified; other numbers keep the crate's text form, and a null
/// becomes empty text.
#[verifier::external_body]
fn tree_of_yaml(v: serde_yaml::Value) -> ConfigTree {
    match v {
        serde_yaml::Value::Null => ConfigTree::Leaf(String::new()),
        serde_yaml::Value::Bool(b) => ConfigTree::Flag(b),
        serde_yaml::Value::Number(n) => match n.as_i64() { Some(i) => ConfigTree::Int(i), None => ConfigTree::Leaf(n.to_string()) },
        serde_yaml::Value::String(s) => ConfigTree::Leaf(s),
        serde_yaml::Value::Sequence(items) => ConfigTree::List(
            items.into_iter().map(yaml_item_tree).collect(),
        ),
        serde_yaml::Value::Mapping(mapping) => ConfigTree::Table(
            mapping.into_iter().filter_map(|(k, x)| yaml_table_entry(k, x)).collect(),
        ),
        serde_yaml::Value::Tagged(t) => ConfigTree::Leaf(format!("{:?}", t)),
    }
}

/// Relies on `serde_yaml::from_str`: parsing depends on the content alone,
/// so the result carries the name `yaml_tree_of`.
#[verifier::external_body]
pub fn parse_yaml_tree(content: &str) -> (r: Option<ConfigTree>)
    ensures
        r == yaml_tree_of(content@),
{
    match serde_yaml::from_str::<serde_yaml::Value>(content) {
        Ok(v) => Some(tree_of_yaml(v)),
        Err(_) => None,
    }
}

/// Parses a TOML text and flattens it: each scalar under its dot-joined
/// key, arrays as comma-joined text, in document order.
pub fn toml_flat_map(content: &str) -> (r: Option<Vec<(String, String)>>)
    ensures
        match r {
            Some(entries) => toml_tree_of(content@) matches Some(t) && kv_view(entries@)
                == flat_of(t, Seq::empty()),
            None => toml_tree_of(content@) is None,
        },
{
    proof {
        reveal_strlit("");
    }
    match parse_toml_tree(content) {
        Some(tree) => {
            let entries = flatten_tree(&tree, "");
            proof {
                assert(""@ =~= Seq::<char>::empty());
            }
            Some(entries)
        },
        None => None,
    }
}

/// Parses a YAML text and flattens it: each scalar under its dot-joined
/// key, arrays as comma-joined text, in document order.
pub fn yaml_flat_map(content: &str) -> (r: Option<Vec<(String, String)>>)
    ensures
        match r {
            Some(entries) => yaml_tree_of(content@) matches Some(t) && kv_view(entries@)
                == flat_of(t, Seq::empty()),
            None => yaml_tree_of(content@) is None,
        },
{
    proof {
        reveal_strlit("");
    }
    match parse_yaml_tree(content) {
        Some(tree) => {
            let entries = flatten_tree(&tree, "");
            proof {
                assert(""@ =~= Seq::<char>::empty());
            }
            Some(entries)
        },
        None => None,
    }
}

} // verus!
