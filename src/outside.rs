use vstd::prelude::*;
use colored::Colorize;

verus! {

/// Relies on `String::push`: the character is appended at the end.
#[verifier::external_body]
pub(crate) fn push_char(s: &mut String, c: char)
    ensures
        final(s)@ == old(s)@.push(c),
{
    s.push(c);
}

/// rand's `random`: a value of any type that the standard distribution covers.
pub assume_specification<T>[ rand::random::<T> ]() -> (r: T)
    where
        rand::distributions::Standard: rand::distributions::Distribution<T>,
;

#[verifier::external_type_specification]
#[verifier::external_body]
#[verifier::reject_recursive_types(D)]
pub struct ExTree<D: std::fmt::Display>(termtree::Tree<D>);

/// The rows of a termtree tree in pre-order: the root at depth 0, then the rows
/// of each leaf in the order in which they were pushed, one level deeper.
pub uninterp spec fn tree_rows(t: termtree::Tree<String>) -> Seq<(nat, Seq<char>)>;

/// The text that termtree draws, with its default glyphs, for a tree with these rows.
pub uninterp spec fn drawing(rows: Seq<(nat, Seq<char>)>) -> Seq<char>;

/// Rows moved one level deeper.
pub open spec fn nested(rows: Seq<(nat, Seq<char>)>) -> Seq<(nat, Seq<char>)> {
    rows.map_values(|r: (nat, Seq<char>)| (r.0 + 1, r.1))
}

/// Relies on termtree's `Tree::new`: a tree of one node with no leaves.
#[verifier::external_body]
pub(crate) fn leaf(label: String) -> (r: termtree::Tree<String>)
    ensures
        tree_rows(r) == seq![(0nat, label@)],
{
    termtree::Tree::new(label)
}

/// Relies on termtree's `Tree::push`: `sub` becomes the last leaf of `t`.
#[verifier::external_body]
pub(crate) fn attach(t: &mut termtree::Tree<String>, sub: termtree::Tree<String>)
    ensures
        tree_rows(*final(t)) == tree_rows(*old(t)) + nested(tree_rows(sub)),
{
    t.push(sub);
}

/// Relies on termtree's `Display` for `Tree`: the drawn tree, one row per line.
/// Trees here are built by `leaf` and `attach` alone, so they keep the default glyphs.
#[verifier::external_body]
pub(crate) fn draw(t: &termtree::Tree<String>) -> (r: String)
    ensures
        r@ == drawing(tree_rows(*t)),
{
    t.to_string()
}

/// Relies on colored's `magenta`, `italic` and `bold`: the text in that style,
/// or unchanged where colouring is off (colored decides that from the environment
/// and the terminal).
#[verifier::external_body]
pub(crate) fn emphasize_root(s: &String) -> (r: String)
    ensures
        r@ == s@ || r@.len() > s@.len(),
{
    s.as_str().magenta().italic().bold().to_string()
}

/// Relies on colored's `magenta`, `italic`, `underline` and `bold`: the text in
/// that style, or unchanged where colouring is off.
#[verifier::external_body]
pub(crate) fn emphasize_leaf(s: &String) -> (r: String)
    ensures
        r@ == s@ || r@.len() > s@.len(),
{
    s.as_str().magenta().italic().underline().bold().to_string()
}

} // verus!
