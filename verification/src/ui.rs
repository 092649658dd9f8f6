//! The user-interface description: layout trees of tagged widgets, and the
//! decisions taken from tags.

use vstd::prelude::*;
use crate::tags::{contains_tag, has_tag, tags_view, ToVecString};

verus! {

broadcast use vstd::string::group_string_axioms;

/// The tags of a user-interface element.
#[derive(Clone, Debug)]
pub struct UiTags {
    pub tags: Vec<String>,
}

impl UiTags {
    pub fn new(tags: Vec<String>) -> (t: UiTags)
        ensures
            t.tags == tags,
    {
        UiTags { tags }
    }
}

/// The kind of a widget, with what the layout fixes of it: the text of a
/// text widget, and the asset an image shows.
pub enum Widget {
    Node,
    Button,
    Text(String),
    Image(String),
    AtlasImage(String),
}

/// A widget with its tags and its children.
pub struct LayoutNode {
    pub tags: Vec<String>,
    pub widget: Widget,
    pub children: Vec<LayoutNode>,
}

/// Tags that start with two base tags and continue with the given ones.
pub open spec fn base_and(a: Seq<char>, b: Seq<char>, additional: Seq<&str>) -> Seq<Seq<char>> {
    seq![a, b] + additional.map_values(|s: &str| s@)
}

/// The tags of a layout node.
pub open spec fn node_tags(n: LayoutNode) -> Seq<Seq<char>> {
    tags_view(n.tags@)
}

fn with_base(a: &str, b: &str, additional: Vec<&str>) -> (tags: Vec<String>)
    ensures
        tags_view(tags@) == base_and(a@, b@, additional@),
{
    let mut all: Vec<&str> = Vec::new();
    all.push(a);
    all.push(b);
    let mut i: usize = 0;
    while i < additional.len()
        invariant
            i <= additional.len(),
            all@ == seq![a, b] + additional@.take(i as int),
        decreases additional.len() - i,
    {
        all.push(additional[i]);
        proof {
            assert(additional@.take(i + 1) =~= additional@.take(i as int).push(additional@[i as int]));
            assert(seq![a, b] + additional@.take(i + 1) =~= (seq![a, b] + additional@.take(i as int)).push(additional@[i as int]));
        }
        i = i + 1;
    }
    proof {
        assert(additional@.take(additional.len() as int) =~= additional@);
        assert(all@.map_values(|s: &str| s@) =~= base_and(a@, b@, additional@));
    }
    all.to_vec_string()
}

/// A container node tagged `NodeBundle`, `node`, then the given tags.
pub fn node(additional_tags: Vec<&str>, children: Vec<LayoutNode>) -> (n: LayoutNode)
    ensures
        tags_view(n.tags@) == base_and("NodeBundle"@, "node"@, additional_tags@),
        n.widget is Node,
        n.children == children,
{
    LayoutNode { tags: with_base("NodeBundle", "node", additional_tags), widget: Widget::Node, children }
}

/// A button tagged `ButtonBundle`, `button`, then the given tags.
pub fn button(additional_tags: Vec<&str>, children: Vec<LayoutNode>) -> (n: LayoutNode)
    ensures
        tags_view(n.tags@) == base_and("ButtonBundle"@, "button"@, additional_tags@),
        n.widget is Button,
        n.children == children,
{
    LayoutNode { tags: with_base("ButtonBundle", "button", additional_tags), widget: Widget::Button, children }
}

/// A text tagged `TextBundle`, `text`, then the given tags, showing `content`.
pub fn text(additional_tags: Vec<&str>, content: &str, children: Vec<LayoutNode>) -> (n: LayoutNode)
    ensures
        tags_view(n.tags@) == base_and("TextBundle"@, "text"@, additional_tags@),
        n.widget matches Widget::Text(t) && t@ == content@,
        n.children == children,
{
    LayoutNode {
        tags: with_base("TextBundle", "text", additional_tags),
        widget: Widget::Text(String::from_str(content)),
        children,
    }
}

/// An image tagged `ImageBundle`, `image`, then the given tags, showing the
/// image asset at `source`.
pub fn image(additional_tags: Vec<&str>, source: &str, children: Vec<LayoutNode>) -> (n: LayoutNode)
    ensures
        tags_view(n.tags@) == base_and("ImageBundle"@, "image"@, additional_tags@),
        n.widget matches Widget::Image(t) && t@ == source@,
        n.children == children,
{
    LayoutNode {
        tags: with_base("ImageBundle", "image", additional_tags),
        widget: Widget::Image(String::from_str(source)),
        children,
    }
}

/// An image from a texture atlas, tagged `AtlasImageBundle`, `image`, then
/// the given tags, showing the atlas named `texture_atlas`.
pub fn atlas_image(additional_tags: Vec<&str>, texture_atlas: &str, children: Vec<LayoutNode>) -> (n: LayoutNode)
    ensures
        tags_view(n.tags@) == base_and("AtlasImageBundle"@, "image"@, additional_tags@),
        n.widget matches Widget::AtlasImage(t) && t@ == texture_atlas@,
        n.children == children,
{
    LayoutNode {
        tags: with_base("AtlasImageBundle", "image", additional_tags),
        widget: Widget::AtlasImage(String::from_str(texture_atlas)),
        children,
    }
}

/// The tags of the root that every layout is spawned under.
pub fn root_tags() -> (t: UiTags)
    ensures
        tags_view(t.tags@) == seq!["root"@],
{
    let mut tags: Vec<String> = Vec::new();
    tags.push(String::from_str("root"));
    proof {
        assert(tags_view(tags@) =~= seq!["root"@]);
    }
    UiTags::new(tags)
}

/// Whether an element is the root of a layout, which is what replacing the
/// layout removes.
pub fn is_layout_root(tags: &UiTags) -> (r: bool)
    ensures
        r == has_tag(tags.tags@, "root"@),
{
    contains_tag(&tags.tags, "root")
}

/// The tags followed by each tag with `suffix` appended.
pub open spec fn suffixed(tags: Seq<Seq<char>>, suffix: Seq<char>) -> Seq<Seq<char>> {
    tags + tags.map_values(|t: Seq<char>| t + suffix)
}

/// The tags followed by each tag with `suffix` appended, so that a theme can
/// style an element's states (`button:hovered`).
pub fn append_suffixed_tags(tags: Vec<String>, suffix: &str) -> (r: Vec<String>)
    ensures
        tags_view(r@) == suffixed(tags_view(tags@), suffix@),
{
    let mut r: Vec<String> = Vec::new();
    let mut i: usize = 0;
    while i < tags.len()
        invariant
            i <= tags.len(),
            tags_view(r@) == tags_view(tags@).take(i as int),
        decreases tags.len() - i,
    {
        let t = tags[i].clone();
        proof {
            assert(tags_view(r@.push(t)) =~= tags_view(r@).push(t@));
            assert(tags_view(tags@).take(i + 1) =~= tags_view(tags@).take(i as int).push(tags@[i as int]@));
        }
        r.push(t);
        i = i + 1;
    }
    let mut j: usize = 0;
    while j < tags.len()
        invariant
            j <= tags.len(),
            tags_view(r@) == tags_view(tags@) + tags_view(tags@).take(j as int).map_values(|t: Seq<char>| t + suffix@),
        decreases tags.len() - j,
    {
        let t = tags[j].clone().concat(suffix);
        proof {
            assert(tags_view(r@.push(t)) =~= tags_view(r@).push(t@));
            assert(tags_view(tags@).take(j + 1) =~= tags_view(tags@).take(j as int).push(tags@[j as int]@));
            assert(tags_view(tags@).take(j + 1).map_values(|t: Seq<char>| t + suffix@) =~= tags_view(tags@).take(j as int).map_values(|t: Seq<char>| t + suffix@).push(tags@[j as int]@ + suffix@));
        }
        r.push(t);
        j = j + 1;
    }
    proof {
        assert(tags_view(tags@).take(tags.len() as int) =~= tags_view(tags@));
    }
    r
}

/// The pointer's relation to a button; `Idle` is neither hovering nor
/// pressing.
#[derive(Clone, Copy, Debug, PartialEq, Eq, Structural)]
pub enum Interaction {
    Pressed,
    Hovered,
    Idle,
}

/// The tags a button is themed with in an interaction state: its own tags,
/// and while hovered or pressed also each tag with `:hovered` or `:pressed`.
pub fn interaction_tags(tags: Vec<String>, interaction: Interaction) -> (r: Vec<String>)
    ensures
        tags_view(r@) == (match interaction {
            Interaction::Idle => tags_view(tags@),
            Interaction::Hovered => suffixed(tags_view(tags@), ":hovered"@),
            Interaction::Pressed => suffixed(tags_view(tags@), ":pressed"@),
        }),
{
    match interaction {
        Interaction::Idle => tags,
        Interaction::Hovered => append_suffixed_tags(tags, ":hovered"),
        Interaction::Pressed => append_suffixed_tags(tags, ":pressed"),
    }
}

/// A layout node as it is spawned: the position, among the nodes spawned
/// before it, of the node it is spawned under (`None` for the node spawned
/// directly under the layout's root), its tags and its widget.
pub struct SpawnNode {
    pub parent: Option<usize>,
    pub tags: Vec<String>,
    pub widget: Widget,
}

/// A spawned node as plain values.
pub open spec fn spawn_view(s: SpawnNode) -> (Option<int>, Seq<Seq<char>>, Widget) {
    (
        match s.parent {
            Some(p) => Some(p as int),
            None => None,
        },
        tags_view(s.tags@),
        s.widget,
    )
}

/// The order in which the trees `cs` are spawned under `parent`, the first
/// of them at position `start`: each node, then the trees of its children
/// under it, then the next tree.
pub open spec fn spawn_order(cs: Seq<LayoutNode>, parent: Option<int>, start: int) -> Seq<(Option<int>, Seq<Seq<char>>, Widget)>
    decreases cs,
{
    if cs.len() == 0 {
        Seq::empty()
    } else {
        proof {
            assert(decreases_to!(cs => cs[0]));
            assert(decreases_to!(cs[0] => cs[0].children));
            assert(decreases_to!(cs[0].children => cs[0].children@));
        }
        let below = spawn_order(cs[0].children@, Some(start), start + 1);
        seq![(parent, tags_view(cs[0].tags@), cs[0].widget)] + below + spawn_order(
            cs.subrange(1, cs.len() as int),
            parent,
            start + 1 + below.len(),
        )
    }
}

fn push_spawn_order(cs: Vec<LayoutNode>, parent: Option<usize>, out: &mut Vec<SpawnNode>)
    ensures
        final(out)@.map_values(|s: SpawnNode| spawn_view(s)) == old(out)@.map_values(|s: SpawnNode| spawn_view(s))
            + spawn_order(
            cs@,
            match parent {
                Some(p) => Some(p as int),
                None => None,
            },
            old(out).len() as int,
        ),
    decreases cs@,
{
    let ghost pv = match parent {
        Some(p) => Some(p as int),
        None => None,
    };
    let ghost all = cs@;
    let ghost before = out@.map_values(|s: SpawnNode| spawn_view(s));
    if cs.len() == 0 {
        proof {
            assert(spawn_order(all, pv, out.len() as int) =~= Seq::empty());
            assert(before + Seq::empty() =~= before);
        }
        return;
    }
    let mut rest = cs;
    let first = rest.remove(0);
    proof {
        assert(first == all[0]);
        assert(rest@ =~= all.subrange(1, all.len() as int));
        assert(decreases_to!(all => all[0]));
        assert(decreases_to!(all[0] => all[0].children));
        assert(decreases_to!(all[0].children => all[0].children@));
    }
    let LayoutNode { tags, widget, children } = first;
    let here = out.len();
    let node = SpawnNode { parent, tags, widget };
    proof {
        assert(out@.push(node).map_values(|s: SpawnNode| spawn_view(s)) =~= before.push(spawn_view(node)));
    }
    out.push(node);
    let ghost mid0 = out@.map_values(|s: SpawnNode| spawn_view(s));
    push_spawn_order(children, Some(here), out);
    let ghost mid1 = out@.map_values(|s: SpawnNode| spawn_view(s));
    let ghost below = spawn_order(all[0].children@, Some(here as int), here + 1);
    assert(mid1 == mid0 + below);
    assert(out.len() == here + 1 + below.len()) by {
        assert(mid1.len() == out.len());
        assert(mid0.len() == here + 1);
    }
    push_spawn_order(rest, parent, out);
    proof {
        let after = out@.map_values(|s: SpawnNode| spawn_view(s));
        let tail = spawn_order(all.subrange(1, all.len() as int), pv, here + 1 + below.len());
        assert(after == mid1 + tail);
        assert(spawn_order(all, pv, here as int) == seq![(pv, tags_view(all[0].tags@), all[0].widget)] + below + tail);
        assert(spawn_view(node) == (pv, tags_view(all[0].tags@), all[0].widget));
        assert(after =~= before + spawn_order(all, pv, here as int));
    }
}

/// The nodes of a layout in the order they are spawned under the layout's
/// root: depth first, each node before its children, children in order.
pub fn spawn_plan(layout: LayoutNode) -> (r: Vec<SpawnNode>)
    ensures
        r@.map_values(|s: SpawnNode| spawn_view(s)) == spawn_order(seq![layout], None, 0),
        r@.len() == 1 + forest_size(layout.children@),
        spawn_view(r@[0]) == (None::<int>, tags_view(layout.tags@), layout.widget),
        r@.map_values(|s: SpawnNode| spawn_view(s)).subrange(1, r@.len() as int) == spawn_order(layout.children@, Some(0), 1),
{
    let mut out: Vec<SpawnNode> = Vec::new();
    let mut trees: Vec<LayoutNode> = Vec::new();
    trees.push(layout);
    proof {
        assert(trees@ =~= seq![layout]);
    }
    push_spawn_order(trees, None, &mut out);
    proof {
        assert(Seq::<SpawnNode>::empty().map_values(|s: SpawnNode| spawn_view(s)) =~= Seq::empty());
        let one = seq![layout];
        lemma_spawn_trees_in_order(one, None, 0, 0);
        lemma_spawn_count(one, None, 0);
        assert(one.take(0) =~= Seq::<LayoutNode>::empty());
        assert(forest_size(one.take(0)) == 0);
        assert(one.subrange(1, 1) =~= Seq::<LayoutNode>::empty());
        assert(forest_size(one.subrange(1, 1)) == 0);
        assert(forest_size(one) == 1 + forest_size(layout.children@));
        let v = out@.map_values(|s: SpawnNode| spawn_view(s));
        assert(v[0] == spawn_view(out@[0]));
    }
    out
}

/// Every node is spawned after the node it is spawned under: its parent is
/// the parent of the whole forest, or a node spawned before it.
pub proof fn lemma_spawn_parent_first(cs: Seq<LayoutNode>, parent: Option<int>, start: int, i: int)
    requires
        0 <= i < spawn_order(cs, parent, start).len(),
    ensures
        spawn_order(cs, parent, start)[i].0 == parent || (spawn_order(cs, parent, start)[i].0 matches Some(p)
            && start <= p < start + i),
    decreases cs,
{
    assert(decreases_to!(cs => cs[0]));
    assert(decreases_to!(cs[0] => cs[0].children));
    assert(decreases_to!(cs[0].children => cs[0].children@));
    let below = spawn_order(cs[0].children@, Some(start), start + 1);
    let tail = cs.subrange(1, cs.len() as int);
    let rest = spawn_order(tail, parent, start + 1 + below.len());
    let all = spawn_order(cs, parent, start);
    assert(all == seq![(parent, tags_view(cs[0].tags@), cs[0].widget)] + below + rest);
    if i == 0 {
    } else if i < 1 + below.len() {
        lemma_spawn_parent_first(cs[0].children@, Some(start), start + 1, i - 1);
        assert(all[i] == below[i - 1]);
    } else {
        lemma_spawn_parent_first(tail, parent, start + 1 + below.len(), i - 1 - below.len());
        assert(all[i] == rest[i - 1 - below.len()]);
    }
}

/// The number of nodes of the trees `cs`, counting every node at every
/// depth once.
pub open spec fn forest_size(cs: Seq<LayoutNode>) -> nat
    decreases cs,
{
    if cs.len() == 0 {
        0
    } else {
        proof {
            assert(decreases_to!(cs => cs[0]));
            assert(decreases_to!(cs[0] => cs[0].children));
            assert(decreases_to!(cs[0].children => cs[0].children@));
        }
        1 + forest_size(cs[0].children@) + forest_size(cs.subrange(1, cs.len() as int))
    }
}

/// Every node of the trees is spawned exactly once: the spawn order is as
/// long as the trees have nodes.
pub proof fn lemma_spawn_count(cs: Seq<LayoutNode>, parent: Option<int>, start: int)
    ensures
        spawn_order(cs, parent, start).len() == forest_size(cs),
    decreases cs,
{
    if cs.len() > 0 {
        assert(decreases_to!(cs => cs[0]));
        assert(decreases_to!(cs[0] => cs[0].children));
        assert(decreases_to!(cs[0].children => cs[0].children@));
        lemma_spawn_count(cs[0].children@, Some(start), start + 1);
        let below = spawn_order(cs[0].children@, Some(start), start + 1);
        lemma_spawn_count(cs.subrange(1, cs.len() as int), parent, start + 1 + below.len());
    }
}

/// The trees of a forest are spawned one after the other in the order of
/// the list: the `k`-th tree's root comes right after all nodes of the
/// trees before it, under the forest's parent, and the nodes of its
/// children follow it directly, spawned under it in the same way.  So at
/// every depth siblings are spawned in the order of their list.
pub proof fn lemma_spawn_trees_in_order(cs: Seq<LayoutNode>, parent: Option<int>, start: int, k: int)
    requires
        0 <= k < cs.len(),
    ensures
        ({
            let order = spawn_order(cs, parent, start);
            let off = forest_size(cs.take(k)) as int;
            let size = forest_size(cs[k].children@) as int;
            &&& off + 1 + size <= order.len()
            &&& order[off] == (parent, tags_view(cs[k].tags@), cs[k].widget)
            &&& order.subrange(off + 1, off + 1 + size) == spawn_order(cs[k].children@, Some(start + off), start + off + 1)
        }),
    decreases cs,
{
    assert(decreases_to!(cs => cs[0]));
    assert(decreases_to!(cs[0] => cs[0].children));
    assert(decreases_to!(cs[0].children => cs[0].children@));
    let below = spawn_order(cs[0].children@, Some(start), start + 1);
    let tail = cs.subrange(1, cs.len() as int);
    let rest = spawn_order(tail, parent, start + 1 + below.len());
    let order = spawn_order(cs, parent, start);
    let head = seq![(parent, tags_view(cs[0].tags@), cs[0].widget)];
    assert(order == head + below + rest);
    lemma_spawn_count(cs[0].children@, Some(start), start + 1);
    lemma_spawn_count(tail, parent, start + 1 + below.len());
    if k == 0 {
        assert(cs.take(0) =~= Seq::<LayoutNode>::empty());
        assert(forest_size(cs.take(0)) == 0);
        assert(order.subrange(1, 1 + below.len() as int) =~= below);
    } else {
        lemma_spawn_trees_in_order(tail, parent, start + 1 + below.len(), k - 1);
        let t = cs.take(k);
        assert(t[0] == cs[0]);
        assert(t.subrange(1, t.len() as int) =~= tail.take(k - 1));
        assert(forest_size(t) == 1 + forest_size(cs[0].children@) + forest_size(tail.take(k - 1)));
        let off2 = forest_size(tail.take(k - 1)) as int;
        let off = forest_size(t) as int;
        assert(off == 1 + below.len() + off2);
        assert(tail[k - 1] == cs[k]);
        let size = forest_size(cs[k].children@) as int;
        assert(order[off] == rest[off2]);
        assert(order.subrange(off + 1, off + 1 + size) =~= rest.subrange(off2 + 1, off2 + 1 + size));
    }
}

} // verus!
