//! Rows of a directory-tree listing: one `path<TAB>size<TAB>time` row per
//! node, parents before their children.

use vstd::prelude::*;
use crate::text::{decimal, decimal_string, push_char};

verus! {

broadcast use vstd::std_specs::vec::group_vec_axioms;

/// A node of a directory tree as `tree -J --du -D` describes it.
pub struct TreeNode {
    pub node_type: String,
    pub name: String,
    pub size: u64,
    pub time: String,
    pub contents: Option<Vec<TreeNode>>,
}

pub open spec fn row_text(path: Seq<char>, node: TreeNode) -> Seq<char> {
    path + seq!['\t'] + decimal(node.size as nat) + seq!['\t'] + node.time@
}

/// The rows of a node and, after it, of everything under it; a child's path
/// is its parent's path, `/`, and its name.
pub open spec fn tree_rows_of(node: TreeNode, prefix: Seq<char>) -> Seq<Seq<char>>
    decreases node, 0int,
{
    let path = prefix + node.name@;
    seq![row_text(path, node)] + match node.contents {
        Some(cs) => children_rows(cs, path.push('/'), cs@.len() as int),
        None => Seq::<Seq<char>>::empty(),
    }
}

/// The rows of the first `n` children, in order.
pub open spec fn children_rows(cs: Vec<TreeNode>, prefix: Seq<char>, n: int) -> Seq<Seq<char>>
    decreases cs, n,
{
    if n <= 0 || n > cs@.len() {
        Seq::<Seq<char>>::empty()
    } else {
        children_rows(cs, prefix, n - 1) + tree_rows_of(cs[n - 1], prefix)
    }
}

/// Lists a tree as rows `path<TAB>size<TAB>time`, the root's path being
/// `prefix` followed by its name.
pub fn tree_rows(node: &TreeNode, prefix: &String) -> (r: Vec<String>)
    ensures
        r@.map_values(|s: String| s@) == tree_rows_of(*node, prefix@),
    decreases node,
{
    let mut path = prefix.clone();
    path.append(node.name.as_str());
    let mut row = path.clone();
    push_char(&mut row, '\t');
    let size = decimal_string(node.size);
    row.append(size.as_str());
    push_char(&mut row, '\t');
    row.append(node.time.as_str());
    assert(row@ =~= row_text(prefix@ + node.name@, *node));
    let ghost row_view = row@;
    let mut rows: Vec<String> = Vec::new();
    rows.push(row);
    assert(rows@[0]@ == row_view);
    assert(rows@.map_values(|s: String| s@) =~= seq![row_text(prefix@ + node.name@, *node)]);
    match &node.contents {
        Some(cs) => {
            let mut child_prefix = path.clone();
            push_char(&mut child_prefix, '/');
            let ghost head = rows@.map_values(|s: String| s@);
            let mut i: usize = 0;
            while i < cs.len()
                invariant
                    i <= cs@.len(),
                    node.contents == Some(*cs),
                    child_prefix@ == (prefix@ + node.name@).push('/'),
                    rows@.map_values(|s: String| s@) == head + children_rows(
                        *cs,
                        child_prefix@,
                        i as int,
                    ),
                decreases cs.len() - i,
            {
                assert(decreases_to!(*node => node.contents));
                assert(decreases_to!(node.contents => node.contents->0));
                assert(node.contents->0 == *cs);
                assert(decreases_to!(*cs => cs[i as int]));
                let sub = tree_rows(&cs[i], &child_prefix);
                let ghost before = rows@.map_values(|s: String| s@);
                let mut j: usize = 0;
                while j < sub.len()
                    invariant
                        j <= sub@.len(),
                        rows@.map_values(|s: String| s@) == before + sub@.subrange(
                            0,
                            j as int,
                        ).map_values(|s: String| s@),
                    decreases sub.len() - j,
                {
                    let ghost prev = rows@.map_values(|s: String| s@);
                    let item = sub[j].clone();
                    assert(item@ == sub@[j as int]@);
                    rows.push(item);
                    assert(rows@.map_values(|s: String| s@) =~= prev.push(item@));
                    assert(sub@.subrange(0, j + 1).map_values(|s: String| s@) =~= sub@.subrange(
                        0,
                        j as int,
                    ).map_values(|s: String| s@).push(sub@[j as int]@));
                    assert(rows@.map_values(|s: String| s@) =~= before + sub@.subrange(
                        0,
                        j + 1,
                    ).map_values(|s: String| s@));
                    j = j + 1;
                }
                assert(sub@.subrange(0, sub@.len() as int) =~= sub@);
                assert(head + children_rows(*cs, child_prefix@, i + 1) =~= head + children_rows(
                    *cs,
                    child_prefix@,
                    i as int,
                ) + tree_rows_of(cs@[i as int], child_prefix@));
                i = i + 1;
            }
        },
        None => {
            assert(seq![row_text(prefix@ + node.name@, *node)] + Seq::<Seq<char>>::empty()
                =~= seq![row_text(prefix@ + node.name@, *node)]);
        },
    }
    rows
}

} // verus!
