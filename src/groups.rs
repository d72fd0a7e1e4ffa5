//! The counterpart's group tree, flattened with each group's chain of parents.
use vstd::prelude::*;

verus! {

broadcast use vstd::std_specs::vec::axiom_vec_index_decreases, vstd::std_specs::vec::axiom_vec_decreases_to_view, vstd::seq::axiom_seq_index_decreases;

/// A group and the groups below it.
pub struct GroupNode {
    pub name: String,
    pub uuid: String,
    pub children: Vec<GroupNode>,
}

/// A group with the names of the groups above it, outermost first.
#[derive(Clone, Debug)]
pub struct FlatGroup {
    pub parents: Vec<String>,
    pub name: String,
    pub uuid: String,
}

pub type FlatView = (Seq<Seq<char>>, Seq<char>, Seq<char>);

pub open spec fn names(s: Seq<String>) -> Seq<Seq<char>> {
    s.map_values(|x: String| x@)
}

impl View for FlatGroup {
    type V = FlatView;

    open spec fn view(&self) -> FlatView {
        (names(self.parents@), self.name@, self.uuid@)
    }
}

/// Every group of `nodes` in depth-first order, each before the groups below it.
pub open spec fn flat(nodes: Seq<GroupNode>, parents: Seq<Seq<char>>) -> Seq<FlatView>
    decreases nodes,
{
    if nodes.len() == 0 {
        Seq::empty()
    } else {
        let n = nodes.last();
        flat(nodes.drop_last(), parents) + seq![(parents, n.name@, n.uuid@)] + flat(
            n.children@,
            parents.push(n.name@),
        )
    }
}

pub open spec fn flat_views(s: Seq<FlatGroup>) -> Seq<FlatView> {
    s.map_values(|g: FlatGroup| g@)
}

fn copy_names(parents: &Vec<String>) -> (r: Vec<String>)
    ensures
        names(r@) == names(parents@),
{
    let mut r: Vec<String> = Vec::new();
    let mut i: usize = 0;
    while i < parents.len()
        invariant
            i <= parents@.len(),
            names(r@) == names(parents@.take(i as int)),
        decreases parents@.len() - i,
    {
        let ghost prev = r@;
        r.push(parents[i].clone());
        assert(names(r@) =~= names(prev).push(parents@[i as int]@));
        assert(names(parents@.take(i + 1)) =~= names(parents@.take(i as int)).push(parents@[i as int]@));
        i = i + 1;
    }
    assert(parents@.take(i as int) =~= parents@);
    r
}

fn flatten_into(nodes: &Vec<GroupNode>, parents: &Vec<String>, out: &mut Vec<FlatGroup>)
    ensures
        flat_views(final(out)@) == flat_views(old(out)@) + flat(nodes@, names(parents@)),
    decreases nodes,
{
    let mut i: usize = 0;
    while i < nodes.len()
        invariant
            i <= nodes@.len(),
            flat_views(out@) == flat_views(old(out)@) + flat(nodes@.take(i as int), names(parents@)),
        decreases nodes@.len() - i,
    {
        let n = &nodes[i];
        let ghost before = out@;
        out.push(FlatGroup { parents: copy_names(parents), name: n.name.clone(), uuid: n.uuid.clone() });
        let ghost pushed = out@;
        assert(flat_views(pushed) =~= flat_views(before).push((names(parents@), n.name@, n.uuid@)));
        let mut below = copy_names(parents);
        below.push(n.name.clone());
        assert(names(below@) =~= names(parents@).push(n.name@));
        flatten_into(&n.children, &below, out);
        assert(nodes@.take(i + 1).drop_last() =~= nodes@.take(i as int));
        assert(nodes@.take(i + 1).last() == nodes@[i as int]);
        assert(flat_views(out@) =~= flat_views(old(out)@) + flat(nodes@.take(i + 1), names(parents@)));
        i = i + 1;
    }
    assert(nodes@.take(i as int) =~= nodes@);
}

/// Every group of the tree, depth first, each with the names of the groups above it.
pub fn flat_groups(groups: &Vec<GroupNode>) -> (r: Vec<FlatGroup>)
    ensures
        flat_views(r@) == flat(groups@, Seq::empty()),
{
    let mut out: Vec<FlatGroup> = Vec::new();
    let none: Vec<String> = Vec::new();
    assert(names(none@) =~= Seq::<Seq<char>>::empty());
    flatten_into(groups, &none, &mut out);
    assert(flat_views(Seq::<FlatGroup>::empty()) =~= Seq::<FlatView>::empty());
    out
}

} // verus!
