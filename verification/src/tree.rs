//! The widget tree: nodes that hold a widget and their children, the
//! focusable widgets in tab order, and widgets addressed by their path of
//! child indices from the root.
use vstd::prelude::*;

verus! {

/// A node of the widget tree.  `widget` is whatever the application keeps for
/// the widget (the widget itself and its layout handles); `focusable` tells
/// whether the widget takes the keyboard focus.
pub struct WidgetNode<W> {
    pub widget: W,
    pub focusable: bool,
    pub children: Vec<WidgetNode<W>>,
}

impl<W> WidgetNode<W> {
    /// A node holding `widget` above `children`.
    pub fn new(widget: W, focusable: bool, children: Vec<WidgetNode<W>>) -> (n: Self)
        ensures
            n.widget == widget,
            n.focusable == focusable,
            n.children == children,
    {
        WidgetNode { widget, focusable, children }
    }
}

/// The paths of the focusable nodes under `n` (`n` itself at `prefix`), in
/// pre-order: a node comes before its children, and children in their order.
pub open spec fn focus_paths<W>(n: WidgetNode<W>, prefix: Seq<usize>) -> Seq<Seq<usize>>
    decreases n,
{
    (if n.focusable {
        seq![prefix]
    } else {
        Seq::empty()
    }) + focus_paths_list(n.children@, prefix, 0)
}

/// The focus paths of the forest `cs`, whose first tree is child `first` of
/// the node at `prefix`.
pub open spec fn focus_paths_list<W>(cs: Seq<WidgetNode<W>>, prefix: Seq<usize>, first: int) -> Seq<
    Seq<usize>,
>
    decreases cs,
{
    if cs.len() == 0 {
        Seq::empty()
    } else {
        focus_paths(cs[0], prefix.push(first as usize)) + focus_paths_list(
            cs.drop_first(),
            prefix,
            first + 1,
        )
    }
}

/// The abstract value of a widget tree.
pub struct NodeModel<W> {
    pub widget: W,
    pub focusable: bool,
    pub children: Seq<NodeModel<W>>,
}

/// The abstract value of `n`.
pub open spec fn model<W>(n: WidgetNode<W>) -> NodeModel<W>
    decreases n,
{
    NodeModel { widget: n.widget, focusable: n.focusable, children: models(n.children@) }
}

/// The abstract values of the forest `cs`.
pub open spec fn models<W>(cs: Seq<WidgetNode<W>>) -> Seq<NodeModel<W>>
    decreases cs,
{
    if cs.len() == 0 {
        Seq::empty()
    } else {
        seq![model(cs[0])] + models(cs.drop_first())
    }
}

/// The node reached from `n` by following the child indices of `path` from
/// position `i` on, if every index is in range.
pub open spec fn node_at<W>(n: NodeModel<W>, path: Seq<usize>, i: int) -> Option<NodeModel<W>>
    decreases path.len() - i,
{
    if i >= path.len() || i < 0 {
        Some(n)
    } else if path[i] < n.children.len() {
        node_at(n.children[path[i] as int], path, i + 1)
    } else {
        None
    }
}

/// `n` with the widget of the node at `path` (from position `i` on) replaced
/// by `w`; `n` itself when the path leads nowhere.
pub open spec fn with_widget_at<W>(n: NodeModel<W>, path: Seq<usize>, i: int, w: W) -> NodeModel<W>
    decreases path.len() - i,
{
    if i >= path.len() || i < 0 {
        NodeModel { widget: w, ..n }
    } else if path[i] < n.children.len() {
        let k = path[i] as int;
        NodeModel { children: n.children.update(k, with_widget_at(n.children[k], path, i + 1, w)), ..n }
    } else {
        n
    }
}

/// The paths in `v`, as sequences.
pub open spec fn path_seqs(v: Seq<Vec<usize>>) -> Seq<Seq<usize>> {
    v.map_values(|p: Vec<usize>| p@)
}

proof fn lemma_focus_list_split<W>(cs: Seq<WidgetNode<W>>, prefix: Seq<usize>, i: int)
    requires
        0 <= i < cs.len(),
    ensures
        focus_paths_list(cs.subrange(i, cs.len() as int), prefix, i) == focus_paths(
            cs[i],
            prefix.push(i as usize),
        ) + focus_paths_list(cs.subrange(i + 1, cs.len() as int), prefix, i + 1),
{
    let s = cs.subrange(i, cs.len() as int);
    assert(s[0] == cs[i]);
    assert(s.drop_first() =~= cs.subrange(i + 1, cs.len() as int));
}

proof fn lemma_models_index<W>(cs: Seq<WidgetNode<W>>)
    ensures
        models(cs).len() == cs.len(),
        forall|k: int| 0 <= k < cs.len() ==> #[trigger] models(cs)[k] == model(cs[k]),
    decreases cs.len(),
{
    if cs.len() > 0 {
        lemma_models_index(cs.drop_first());
        assert forall|k: int| 0 <= k < cs.len() implies #[trigger] models(cs)[k] == model(cs[k]) by {
            if k > 0 {
                assert(models(cs)[k] == models(cs.drop_first())[k - 1]);
            }
        }
    }
}

proof fn lemma_models_update<W>(cs: Seq<WidgetNode<W>>, k: int)
    requires
        0 <= k < cs.len(),
    ensures
        forall|c: WidgetNode<W>| #[trigger] models(cs.update(k, c)) == models(cs).update(k, model(c)),
{
    assert forall|c: WidgetNode<W>| #[trigger] models(cs.update(k, c)) == models(cs).update(k, model(c)) by {
        lemma_models_index(cs);
        lemma_models_index(cs.update(k, c));
        assert(models(cs.update(k, c)) =~= models(cs).update(k, model(c)));
    }
}

/// Appends to `out` the paths of the focusable nodes under `node`, which sits
/// at `path`, in tab order; `path` is left as it was.
pub fn collect_focus_paths<W>(node: &WidgetNode<W>, path: &mut Vec<usize>, out: &mut Vec<Vec<usize>>)
    ensures
        final(path)@ == old(path)@,
        path_seqs(final(out)@) == path_seqs(old(out)@) + focus_paths(*node, old(path)@),
    decreases node,
{
    if node.focusable {
        let p = path.clone();
        let ghost before = path_seqs(out@);
        out.push(p);
        assert(path_seqs(out@) =~= before.push(path@));
    }
    proof {
        assert(path_seqs(out@) == path_seqs(old(out)@) + (if node.focusable {
            seq![path@]
        } else {
            Seq::<Seq<usize>>::empty()
        }));
    }
    let n = node.children.len();
    let mut i: usize = 0;
    proof {
        assert(node.children@.subrange(0, n as int) =~= node.children@);
    }
    while i < n
        invariant
            n == node.children@.len(),
            i <= n,
            path@ == old(path)@,
            path_seqs(out@) + focus_paths_list(node.children@.subrange(i as int, n as int), path@, i as int)
                == path_seqs(old(out)@) + focus_paths(*node, old(path)@),
        decreases n - i,
    {
        proof {
            lemma_focus_list_split(node.children@, path@, i as int);
            assert(decreases_to!(node => node.children));
            assert(decreases_to!(node.children => node.children@));
            assert(decreases_to!(node.children@ => node.children@[i as int]));
        }
        let ghost before = path_seqs(out@);
        let ghost prefix = path@;
        path.push(i);
        collect_focus_paths(&node.children[i], path, out);
        path.pop();
        proof {
            assert(path@ =~= prefix);
            assert(path_seqs(out@) == before + focus_paths(node.children@[i as int], prefix.push(i)));
        }
        i = i + 1;
    }
    proof {
        assert(node.children@.subrange(n as int, n as int) =~= Seq::<WidgetNode<W>>::empty());
        assert(path_seqs(out@) + Seq::<Seq<usize>>::empty() =~= path_seqs(out@));
    }
}

/// The widget of the node at `path` under `node`, or `None` when an index of
/// the path is out of range.
pub fn widget_mut_at_path<'a, W>(node: &'a mut WidgetNode<W>, path: &[usize]) -> (r: Option<&'a mut W>)
    ensures
        match r {
            Some(w) => {
                &&& node_at(model(*old(node)), path@, 0) is Some
                &&& *w == node_at(model(*old(node)), path@, 0)->0.widget
                &&& model(*final(node)) == with_widget_at(model(*old(node)), path@, 0, *final(w))
            },
            None => node_at(model(*old(node)), path@, 0) is None && model(*final(node)) == model(*old(node)),
        },
{
    widget_mut_from(node, path, 0)
}

proof fn lemma_model_child_update<W>(a: WidgetNode<W>, b: WidgetNode<W>, k: int, c: WidgetNode<W>)
    requires
        0 <= k < a.children@.len(),
        b.children@ == a.children@.update(k, c),
        b.widget == a.widget,
        b.focusable == a.focusable,
    ensures
        model(b) == (NodeModel { children: model(a).children.update(k, model(c)), ..model(a) }),
{
    lemma_models_update(a.children@, k);
    assert(models(b.children@) == models(a.children@).update(k, model(c)));
}

proof fn lemma_model_child_update_all<W>()
    ensures
        forall|a: WidgetNode<W>, b: WidgetNode<W>, k: int, c: WidgetNode<W>|
            #![trigger model(b), a.children@.update(k, c)]
            0 <= k < a.children@.len() && b.children@ == a.children@.update(k, c) && b.widget == a.widget
                && b.focusable == a.focusable ==> model(b) == (NodeModel {
                children: model(a).children.update(k, model(c)),
                ..model(a)
            }) && (model(c) == model(a.children@[k]) ==> model(b) == model(a)),
{
    assert forall|a: WidgetNode<W>, b: WidgetNode<W>, k: int, c: WidgetNode<W>|
        #![trigger model(b), a.children@.update(k, c)]
        0 <= k < a.children@.len() && b.children@ == a.children@.update(k, c) && b.widget == a.widget
            && b.focusable == a.focusable implies model(b) == (NodeModel {
            children: model(a).children.update(k, model(c)),
            ..model(a)
        }) && (model(c) == model(a.children@[k]) ==> model(b) == model(a)) by {
        lemma_model_child_update(a, b, k, c);
        lemma_models_index(a.children@);
        if model(c) == model(a.children@[k]) {
            assert(model(a).children.update(k, model(c)) =~= model(a).children);
        }
    }
}

fn child_mut<'a, W>(node: &'a mut WidgetNode<W>, idx: usize) -> (c: &'a mut WidgetNode<W>)
    requires
        idx < old(node).children@.len(),
    ensures
        *c == old(node).children@[idx as int],
        final(node).children@ == old(node).children@.update(idx as int, *final(c)),
        final(node).widget == old(node).widget,
        final(node).focusable == old(node).focusable,
        model(*final(node)) == (NodeModel {
            children: model(*old(node)).children.update(idx as int, model(*final(c))),
            ..model(*old(node))
        }),
{
    proof {
        lemma_model_child_update_all::<W>();
    }
    &mut node.children[idx]
}

fn widget_mut_from<'a, W>(node: &'a mut WidgetNode<W>, path: &[usize], i: usize) -> (r: Option<&'a mut W>)
    ensures
        match r {
            Some(w) => {
                &&& node_at(model(*old(node)), path@, i as int) is Some
                &&& *w == node_at(model(*old(node)), path@, i as int)->0.widget
                &&& model(*final(node)) == with_widget_at(model(*old(node)), path@, i as int, *final(w))
            },
            None => node_at(model(*old(node)), path@, i as int) is None && model(*final(node)) == model(*old(node)),
        },
    decreases path@.len() - i,
{
    if i >= path.len() {
        return Some(&mut node.widget);
    }
    let idx = path[i];
    proof {
        lemma_models_index(old(node).children@);
    }
    if idx >= node.children.len() {
        return None;
    }
    proof {
        lemma_model_child_update_all::<W>();
    }
    let child = child_mut(node, idx);
    let r = widget_mut_from(child, path, i + 1);
    r
}

/// What a write through a path gives back: after the widget at `path` is
/// replaced by `w`, the node at `path` holds `w`, with its other parts as
/// they were.
pub proof fn read_after_write_at_path<W>(n: NodeModel<W>, path: Seq<usize>, i: int, w: W)
    requires
        0 <= i,
        node_at(n, path, i) is Some,
    ensures
        node_at(with_widget_at(n, path, i, w), path, i) == Some(
            NodeModel { widget: w, ..node_at(n, path, i)->0 },
        ),
    decreases path.len() - i,
{
    if i < path.len() {
        let k = path[i] as int;
        read_after_write_at_path(n.children[k], path, i + 1, w);
    }
}

/// Writing back the widget that a path leads to leaves the tree as it was.
pub proof fn write_back_same_widget<W>(n: NodeModel<W>, path: Seq<usize>, i: int)
    requires
        0 <= i,
        node_at(n, path, i) is Some,
    ensures
        with_widget_at(n, path, i, node_at(n, path, i)->0.widget) == n,
    decreases path.len() - i,
{
    if i < path.len() {
        let k = path[i] as int;
        write_back_same_widget(n.children[k], path, i + 1);
        assert(n.children.update(k, n.children[k]) =~= n.children);
    }
}

/// A write through one path leaves the node at a path that neither extends
/// it nor is extended by it as it was.
pub proof fn write_leaves_other_paths<W>(n: NodeModel<W>, p: Seq<usize>, q: Seq<usize>, i: int, w: W)
    requires
        0 <= i <= p.len(),
        i <= q.len(),
        p.subrange(0, i) == q.subrange(0, i),
        exists|j: int| i <= j < p.len() && j < q.len() && p[j] != q[j],
    ensures
        node_at(with_widget_at(n, p, i, w), q, i) == node_at(n, q, i),
    decreases p.len() - i,
{
    if p[i] < n.children.len() {
        let k = p[i] as int;
        if p[i] == q[i] {
            assert(p.subrange(0, i + 1) =~= q.subrange(0, i + 1)) by {
                assert(p.subrange(0, i + 1) =~= p.subrange(0, i).push(p[i]));
                assert(q.subrange(0, i + 1) =~= q.subrange(0, i).push(q[i]));
            }
            write_leaves_other_paths(n.children[k], p, q, i + 1, w);
        }
    }
}

/// Every node of `n` has at most `usize::MAX` children, as every vector does.
pub open spec fn sized<W>(n: WidgetNode<W>) -> bool
    decreases n,
{
    n.children@.len() <= usize::MAX && sized_list(n.children@)
}

/// Every tree of `cs` is sized.
pub open spec fn sized_list<W>(cs: Seq<WidgetNode<W>>) -> bool
    decreases cs,
{
    cs.len() == 0 || (sized(cs[0]) && sized_list(cs.drop_first()))
}

proof fn lemma_focus_paths_lead_to_focusable<W>(n: WidgetNode<W>, prefix: Seq<usize>)
    requires
        sized(n),
    ensures
        forall|k: int|
            0 <= k < focus_paths(n, prefix).len() ==> {
                let q = #[trigger] focus_paths(n, prefix)[k];
                &&& prefix.len() <= q.len()
                &&& q.subrange(0, prefix.len() as int) == prefix
                &&& node_at(model(n), q, prefix.len() as int) is Some
                &&& node_at(model(n), q, prefix.len() as int)->0.focusable
            },
    decreases n,
{
    lemma_focus_list_lead_to_focusable(n.children@, prefix, 0);
    lemma_models_index(n.children@);
    let own: Seq<Seq<usize>> = if n.focusable {
        seq![prefix]
    } else {
        Seq::empty()
    };
    let rest = focus_paths_list(n.children@, prefix, 0);
    assert forall|k: int| 0 <= k < focus_paths(n, prefix).len() implies {
        let q = #[trigger] focus_paths(n, prefix)[k];
        &&& prefix.len() <= q.len()
        &&& q.subrange(0, prefix.len() as int) == prefix
        &&& node_at(model(n), q, prefix.len() as int) is Some
        &&& node_at(model(n), q, prefix.len() as int)->0.focusable
    } by {
        let q = focus_paths(n, prefix)[k];
        if k < own.len() {
            assert(q == prefix);
            assert(q.subrange(0, prefix.len() as int) =~= prefix);
        } else {
            let r = k - own.len();
            assert(q == rest[r]);
            let c = q[prefix.len() as int] as int;
            assert(0 <= c < n.children@.len());
            assert(model(n).children[c] == model(n.children@[c]));
        }
    }
}

proof fn lemma_focus_list_lead_to_focusable<W>(cs: Seq<WidgetNode<W>>, prefix: Seq<usize>, first: int)
    requires
        0 <= first,
        first + cs.len() <= usize::MAX + 1,
        sized_list(cs),
    ensures
        forall|k: int|
            0 <= k < focus_paths_list(cs, prefix, first).len() ==> {
                let q = #[trigger] focus_paths_list(cs, prefix, first)[k];
                let c = q[prefix.len() as int] as int;
                &&& prefix.len() < q.len()
                &&& q.subrange(0, prefix.len() as int) == prefix
                &&& first <= c < first + cs.len()
                &&& node_at(model(cs[c - first]), q, prefix.len() as int + 1) is Some
                &&& node_at(model(cs[c - first]), q, prefix.len() as int + 1)->0.focusable
            },
    decreases cs,
{
    if cs.len() > 0 {
        assert(decreases_to!(cs => cs[0]));
        lemma_focus_paths_lead_to_focusable(cs[0], prefix.push(first as usize));
        lemma_focus_list_lead_to_focusable(cs.drop_first(), prefix, first + 1);
        let head = focus_paths(cs[0], prefix.push(first as usize));
        let tail = focus_paths_list(cs.drop_first(), prefix, first + 1);
        assert forall|k: int| 0 <= k < focus_paths_list(cs, prefix, first).len() implies {
            let q = #[trigger] focus_paths_list(cs, prefix, first)[k];
            let c = q[prefix.len() as int] as int;
            &&& prefix.len() < q.len()
            &&& q.subrange(0, prefix.len() as int) == prefix
            &&& first <= c < first + cs.len()
            &&& node_at(model(cs[c - first]), q, prefix.len() as int + 1) is Some
            &&& node_at(model(cs[c - first]), q, prefix.len() as int + 1)->0.focusable
        } by {
            let q = focus_paths_list(cs, prefix, first)[k];
            let pp = prefix.push(first as usize);
            if k < head.len() {
                assert(q == head[k]);
                assert(q.subrange(0, pp.len() as int) == pp);
                assert(q[prefix.len() as int] == pp[prefix.len() as int]);
                assert(q.subrange(0, prefix.len() as int) =~= pp.subrange(0, prefix.len() as int));
                assert(pp.subrange(0, prefix.len() as int) =~= prefix);
            } else {
                assert(q == tail[k - head.len()]);
                let c = q[prefix.len() as int] as int;
                assert(cs.drop_first()[c - first - 1] == cs[c - first]);
            }
        }
    }
}

/// Every path that the focus ring collects leads to a focusable node.
pub proof fn focus_paths_lead_to_focusable<W>(root: WidgetNode<W>)
    requires
        sized(root),
    ensures
        forall|k: int|
            0 <= k < focus_paths(root, Seq::empty()).len() ==> {
                let q = #[trigger] focus_paths(root, Seq::empty())[k];
                &&& node_at(model(root), q, 0) is Some
                &&& node_at(model(root), q, 0)->0.focusable
            },
{
    lemma_focus_paths_lead_to_focusable(root, Seq::empty());
}

} // verus!
