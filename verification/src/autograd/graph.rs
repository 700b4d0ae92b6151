//! The computation graph as an arena of nodes, and the backward walk.
//!
//! Nodes are appended as operations are recorded, so every node comes after
//! the nodes that produced its inputs. Each node keeps, inline, the number
//! of consumers that will send it a gradient and the accumulator into which
//! their contributions are summed. The backward walk lets a node propagate
//! only once every expected contribution has arrived. Operands and
//! gradients are arrays with a shape and strides; every product and every
//! sum of the walk is taken under standard broadcasting, through the
//! dispatcher.
use crate::autograd::dot_backwards::DotBackwards;
use crate::autograd::gradient_function::{GradientFunction, Tensor};
use crate::broadcast::{
    bounded, broadcast_shape, broadcast_shapes, broadcastable, broadcasts_to,
    lemma_broadcast_shape_covers, lemma_broadcasts_to_transitive, lemma_join_below,
};
use crate::layout::{same_shape, volume};
use crate::ndarray::{zipped, ArrayView, NdArray};
use crate::ops::{elementwise, TotalOp};
use vstd::prelude::*;
use vstd::slice::slice_to_vec;

verus! {

/// What a node does with the gradient it has accumulated.
pub enum Operation<T> {
    /// A tracked leaf: it keeps the gradient for retrieval.
    Leaf,
    /// A product: it sends a partial gradient to each of its two inputs.
    Dot(DotBackwards<T>),
}

/// One node of the graph.
pub struct Node<T> {
    pub operation: Operation<T>,
    /// Shape of the value the node produced.
    pub shape: Vec<usize>,
    /// Number of inputs of recorded operations that this node feeds.
    pub fan_in: u128,
    /// Number of contributions received during the current backward pass.
    pub arrived: u128,
    /// Sum of the contributions received, if any.
    pub gradient: Option<NdArray<T>>,
}

/// The arena of nodes, addressed by their position.
pub struct Graph<T> {
    nodes: Vec<Node<T>>,
}

/// The backward function of input `slot` of node `c`.
pub open spec fn edge<T>(nodes: Seq<Node<T>>, c: int, slot: int) -> GradientFunction {
    match nodes[c].operation {
        Operation::Leaf => GradientFunction::NoOp,
        Operation::Dot(op) => op.next_functions@[slot],
    }
}

/// The backward function `f` is node `j`.
pub open spec fn feeds_target(f: GradientFunction, j: int) -> bool {
    match f {
        GradientFunction::NoOp => false,
        GradientFunction::Node(h) => h == j,
    }
}

/// Input `slot` of node `c` was produced by node `j`.
pub open spec fn feeds<T>(nodes: Seq<Node<T>>, c: int, slot: int, j: int) -> bool {
    feeds_target(edge(nodes, c, slot), j)
}

/// The gradient that node `c` sends to its input `slot` when its own
/// accumulated gradient is `grad`: the other operand times the gradient,
/// under standard broadcasting.
pub open spec fn partial<T: Copy, M: TotalOp<T>>(
    nodes: Seq<Node<T>>,
    c: int,
    slot: int,
    grad: ArrayView<T>,
) -> ArrayView<T> {
    match nodes[c].operation {
        Operation::Leaf => grad,
        Operation::Dot(op) => if slot == 0 {
            zipped::<T, M>(op.rhs@, grad)
        } else {
            zipped::<T, M>(op.lhs@, grad)
        },
    }
}

/// An accumulator after one more contribution: the first contribution is
/// stored, every further one is added under standard broadcasting.
pub open spec fn accumulate<T: Copy, A: TotalOp<T>>(
    acc: Option<ArrayView<T>>,
    contribution: ArrayView<T>,
) -> Option<ArrayView<T>> {
    match acc {
        None => Some(contribution),
        Some(sum) => Some(zipped::<T, A>(sum, contribution)),
    }
}

/// The gradient a node holds.
pub open spec fn stored<T>(node: Node<T>) -> Option<ArrayView<T>> {
    match node.gradient {
        Some(array) => Some(array@),
        None => None,
    }
}

/// Number of contributions that node `j` receives from the consumers
/// `c, c + 1, ..., root` in a backward pass that starts at `root`.
pub open spec fn arrivals<T>(nodes: Seq<Node<T>>, root: int, j: int, c: int) -> nat
    decreases root - j, root + 1 - c,
{
    if c <= j || c > root {
        0
    } else {
        let later = arrivals(nodes, root, j, c + 1);
        if fires(nodes, root, c) {
            later + (if feeds(nodes, c, 0, j) {
                1nat
            } else {
                0nat
            }) + (if feeds(nodes, c, 1, j) {
                1nat
            } else {
                0nat
            })
        } else {
            later
        }
    }
}

/// Node `j` propagates in a backward pass that starts at `root`: it is the
/// root itself, or every one of its consumers has sent its contribution.
pub open spec fn fires<T>(nodes: Seq<Node<T>>, root: int, j: int) -> bool
    decreases root - j, root - j + 1,
{
    if j == root {
        true
    } else if 0 <= j < root {
        arrivals(nodes, root, j, j + 1) > 0 && arrivals(nodes, root, j, j + 1)
            == nodes[j].fan_in
    } else {
        false
    }
}

/// The sum of the contributions that node `j` receives from the consumers
/// `c, c + 1, ..., root`, the later consumer first, and `None` if there is
/// none.
pub open spec fn inflow<T: Copy, A: TotalOp<T>, M: TotalOp<T>>(
    nodes: Seq<Node<T>>,
    root: int,
    seed: ArrayView<T>,
    j: int,
    c: int,
) -> Option<ArrayView<T>>
    decreases root - j, root + 1 - c,
{
    if c <= j || c > root {
        None
    } else {
        let later = inflow::<T, A, M>(nodes, root, seed, j, c + 1);
        if fires(nodes, root, c) {
            match gradient_at::<T, A, M>(nodes, root, seed, c) {
                None => later,
                Some(grad) => {
                    let first = if feeds(nodes, c, 0, j) {
                        accumulate::<T, A>(later, partial::<T, M>(nodes, c, 0, grad))
                    } else {
                        later
                    };
                    if feeds(nodes, c, 1, j) {
                        accumulate::<T, A>(first, partial::<T, M>(nodes, c, 1, grad))
                    } else {
                        first
                    }
                },
            }
        } else {
            later
        }
    }
}

/// The gradient accumulated at node `j` by a backward pass that starts at
/// `root` with the gradient `seed`.
pub open spec fn gradient_at<T: Copy, A: TotalOp<T>, M: TotalOp<T>>(
    nodes: Seq<Node<T>>,
    root: int,
    seed: ArrayView<T>,
    j: int,
) -> Option<ArrayView<T>>
    decreases root - j, root - j + 1,
{
    if j == root {
        Some(seed)
    } else if 0 <= j < root {
        inflow::<T, A, M>(nodes, root, seed, j, j + 1)
    } else {
        None
    }
}

/// How many of the two backward functions are node `j`.
pub open spec fn pair_uses(first: GradientFunction, second: GradientFunction, j: int) -> nat {
    (if feeds_target(first, j) {
        1nat
    } else {
        0nat
    }) + (if feeds_target(second, j) {
        1nat
    } else {
        0nat
    })
}

/// How many of the two inputs of `op` were produced by node `j`.
pub open spec fn uses<T>(op: DotBackwards<T>, j: int) -> nat {
    pair_uses(op.next_functions@[0], op.next_functions@[1], j)
}

/// How many inputs of `node` were produced by node `j`.
pub open spec fn node_uses<T>(node: Node<T>, j: int) -> nat {
    match node.operation {
        Operation::Leaf => 0,
        Operation::Dot(op) => uses(op, j),
    }
}

/// Number of inputs of recorded operations that were produced by node `j`:
/// the fan-in that node `j` waits for in a backward pass.
pub open spec fn consumers<T>(nodes: Seq<Node<T>>, j: int) -> nat
    decreases nodes.len(),
{
    if nodes.len() == 0 {
        0
    } else {
        consumers(nodes.drop_last(), j) + node_uses(nodes.last(), j)
    }
}

/// Every input of every node was produced by an earlier node.
pub open spec fn links_back<T>(nodes: Seq<Node<T>>) -> bool {
    &&& forall|i: int, j: int| 0 <= i < nodes.len() && i <= j ==> !#[trigger] feeds(nodes, i, 0, j)
    &&& forall|i: int, j: int| 0 <= i < nodes.len() && i <= j ==> !#[trigger] feeds(nodes, i, 1, j)
}

/// Two states of a graph hold the same operations, node by node.
pub open spec fn same_operations<T>(a: Seq<Node<T>>, b: Seq<Node<T>>) -> bool {
    &&& a.len() == b.len()
    &&& forall|i: int|
        #![trigger a[i]]
        #![trigger b[i]]
        0 <= i < a.len() ==> a[i].operation == b[i].operation
}

/// A node has at most two consumers per node of the graph.
pub proof fn lemma_consumers_bound<T>(nodes: Seq<Node<T>>, j: int)
    ensures
        consumers(nodes, j) <= 2 * nodes.len(),
    decreases nodes.len(),
{
    if nodes.len() != 0 {
        lemma_consumers_bound(nodes.drop_last(), j);
    }
}

/// The consumers of a node depend on the recorded operations alone.
pub proof fn lemma_consumers_same<T>(a: Seq<Node<T>>, b: Seq<Node<T>>, j: int)
    requires
        same_operations(a, b),
    ensures
        consumers(a, j) == consumers(b, j),
    decreases a.len(),
{
    if a.len() != 0 {
        let a0 = a.drop_last();
        let b0 = b.drop_last();
        assert forall|i: int| 0 <= i < a0.len() implies (#[trigger] a0[i]).operation
            == b0[i].operation by {
            assert(a0[i] == a[i] && b0[i] == b[i]);
        }
        assert(same_operations(a0, b0));
        lemma_consumers_same(a0, b0, j);
        assert(a.last().operation == b.last().operation) by {
            assert(a.last() == a[a.len() - 1]);
        }
    }
}

/// A node that no operation was recorded after has no consumer.
pub proof fn lemma_consumers_none<T>(nodes: Seq<Node<T>>, j: int)
    requires
        links_back(nodes),
        j >= nodes.len() - 1,
    ensures
        consumers(nodes, j) == 0,
    decreases nodes.len(),
{
    if nodes.len() != 0 {
        let rest = nodes.drop_last();
        let last = nodes.len() - 1;
        assert forall|i: int, k: int| 0 <= i < rest.len() && i <= k implies !#[trigger] feeds(
            rest,
            i,
            0,
            k,
        ) by {
            assert(rest[i] == nodes[i]);
            assert(!feeds(nodes, i, 0, k));
        }
        assert forall|i: int, k: int| 0 <= i < rest.len() && i <= k implies !#[trigger] feeds(
            rest,
            i,
            1,
            k,
        ) by {
            assert(rest[i] == nodes[i]);
            assert(!feeds(nodes, i, 1, k));
        }
        lemma_consumers_none(rest, j);
        assert(!feeds(nodes, last, 0, j) && !feeds(nodes, last, 1, j));
        assert(nodes.last() == nodes[last]);
    }
}

/// In a graph that holds the operations of a well-formed graph every input
/// was produced by an earlier node.
pub proof fn lemma_well_formed_links_back<T: Copy>(nodes: Seq<Node<T>>, shaped: Seq<Node<T>>)
    requires
        well_formed(shaped),
        same_operations(shaped, nodes),
    ensures
        links_back(nodes),
{
    assert forall|i: int, j: int| 0 <= i < nodes.len() && i <= j implies !#[trigger] feeds(
        nodes,
        i,
        0,
        j,
    ) by {
        assert(node_ok(shaped, i));
        assert(shaped[i].operation == nodes[i].operation);
    }
    assert forall|i: int, j: int| 0 <= i < nodes.len() && i <= j implies !#[trigger] feeds(
        nodes,
        i,
        1,
        j,
    ) by {
        assert(node_ok(shaped, i));
        assert(shaped[i].operation == nodes[i].operation);
    }
}

/// The backward function `f` leads nowhere or to a node before `p`.
pub open spec fn points_below(f: GradientFunction, p: int) -> bool {
    match f {
        GradientFunction::NoOp => true,
        GradientFunction::Node(j) => j < p,
    }
}

/// The backward function `f` of an operand of node `i` leads nowhere or to
/// an earlier node that produced a value of the operand's shape.
pub open spec fn link_ok<T>(
    nodes: Seq<Node<T>>,
    i: int,
    f: GradientFunction,
    operand: Seq<usize>,
) -> bool {
    match f {
        GradientFunction::NoOp => true,
        GradientFunction::Node(j) => j < i && nodes[j as int].shape@ == operand,
    }
}

/// Node `i` is consistent with the nodes before it: its operands are
/// views inside their buffers that broadcast against each other, its shape
/// is the shape they broadcast to, and its fan-in counts its consumers.
pub open spec fn node_ok<T: Copy>(nodes: Seq<Node<T>>, i: int) -> bool {
    &&& nodes[i].fan_in == consumers(nodes, i)
    &&& match nodes[i].gradient {
        Some(array) => array.wf(),
        None => true,
    }
    &&& match nodes[i].operation {
        Operation::Leaf => true,
        Operation::Dot(op) => {
            &&& op.lhs.wf()
            &&& op.rhs.wf()
            &&& broadcastable(op.lhs.shape@, op.rhs.shape@)
            &&& nodes[i].shape@ == broadcast_shape(op.lhs.shape@, op.rhs.shape@)
            &&& link_ok(nodes, i, op.next_functions@[0], op.lhs.shape@)
            &&& link_ok(nodes, i, op.next_functions@[1], op.rhs.shape@)
        },
    }
}

/// Every node is consistent with the nodes before it.
pub open spec fn well_formed<T: Copy>(nodes: Seq<Node<T>>) -> bool {
    forall|i: int| 0 <= i < nodes.len() ==> node_ok(nodes, i)
}

/// Two states of a graph record the same operations.
pub open spec fn same_structure<T>(a: Seq<Node<T>>, b: Seq<Node<T>>) -> bool {
    &&& a.len() == b.len()
    &&& forall|i: int|
        #![trigger a[i]]
        #![trigger b[i]]
        0 <= i < a.len() ==> {
            &&& a[i].operation == b[i].operation
            &&& a[i].shape@ == b[i].shape@
            &&& a[i].fan_in == b[i].fan_in
        }
}

/// The backward function `f` can be that of an operand of the given shape
/// in a new operation.
pub open spec fn target_ok<T>(nodes: Seq<Node<T>>, operand: Seq<usize>, f: GradientFunction) -> bool {
    match f {
        GradientFunction::NoOp => true,
        GradientFunction::Node(j) => j < nodes.len() && nodes[j as int].shape@ == operand,
    }
}

/// Every gradient held during a backward pass, and the shape of the node
/// that holds it, broadcasts to `top`.
pub open spec fn carries<T>(before: Seq<Node<T>>, now: Seq<Node<T>>, top: Seq<usize>) -> bool {
    forall|j: int|
        0 <= j < now.len() ==> match (#[trigger] now[j]).gradient {
            Some(array) => broadcasts_to(array.shape@, top) && broadcasts_to(
                before[j].shape@,
                top,
            ),
            None => true,
        }
}

/// The state of a backward pass from `root` once the nodes `c, ..., root`
/// have had their turn: the nodes below `c` hold what those consumers sent
/// them, and every other node holds its final gradient.
pub open spec fn swept<T: Copy, A: TotalOp<T>, M: TotalOp<T>>(
    before: Seq<Node<T>>,
    now: Seq<Node<T>>,
    root: int,
    seed: ArrayView<T>,
    c: int,
) -> bool {
    forall|j: int|
        0 <= j < before.len() ==> {
            &&& stored(#[trigger] now[j]) == (if j == root {
                Some(seed)
            } else if j < c {
                inflow::<T, A, M>(before, root, seed, j, c)
            } else {
                gradient_at::<T, A, M>(before, root, seed, j)
            })
            &&& now[j].arrived == (if j < c {
                arrivals(before, root, j, c)
            } else {
                arrivals(before, root, j, j + 1)
            })
            &&& now[j].arrived <= 2 * (root + 1 - c)
        }
}


/// An accumulator after the turn of a node that sends `to_first` to
/// `first` and `to_second` to `second`, seen from node `j`.
pub open spec fn after_turn<T: Copy, A: TotalOp<T>>(
    acc: Option<ArrayView<T>>,
    first: GradientFunction,
    second: GradientFunction,
    j: int,
    to_first: ArrayView<T>,
    to_second: ArrayView<T>,
) -> Option<ArrayView<T>> {
    let middle = if feeds_target(first, j) {
        accumulate::<T, A>(acc, to_first)
    } else {
        acc
    };
    if feeds_target(second, j) {
        accumulate::<T, A>(middle, to_second)
    } else {
        middle
    }
}

/// A node that has received a contribution holds a gradient.
pub proof fn lemma_arrived_has_gradient<T: Copy, A: TotalOp<T>, M: TotalOp<T>>(
    nodes: Seq<Node<T>>,
    root: int,
    seed: ArrayView<T>,
    j: int,
    c: int,
)
    requires
        arrivals(nodes, root, j, c) > 0,
    ensures
        inflow::<T, A, M>(nodes, root, seed, j, c).is_some(),
    decreases root - j, root + 1 - c,
{
    if c <= j || c > root {
    } else {
        if arrivals(nodes, root, j, c + 1) > 0 {
            lemma_arrived_has_gradient::<T, A, M>(nodes, root, seed, j, c + 1);
        } else {
            lemma_fired_has_gradient::<T, A, M>(nodes, root, seed, c);
        }
    }
}

/// A node that propagates holds a gradient to propagate.
pub proof fn lemma_fired_has_gradient<T: Copy, A: TotalOp<T>, M: TotalOp<T>>(
    nodes: Seq<Node<T>>,
    root: int,
    seed: ArrayView<T>,
    j: int,
)
    ensures
        fires(nodes, root, j) ==> gradient_at::<T, A, M>(nodes, root, seed, j).is_some(),
    decreases root - j, root - j + 1,
{
    if 0 <= j < root && fires(nodes, root, j) {
        lemma_arrived_has_gradient::<T, A, M>(nodes, root, seed, j, j + 1);
    }
}

/// The turn of a node that sends nothing leaves the pass where it was.
proof fn lemma_turn_idle<T: Copy, A: TotalOp<T>, M: TotalOp<T>>(
    before: Seq<Node<T>>,
    now: Seq<Node<T>>,
    root: int,
    seed: ArrayView<T>,
    p: int,
)
    requires
        0 <= p <= root < before.len(),
        swept::<T, A, M>(before, now, root, seed, p + 1),
        !fires(before, root, p) || before[p].operation is Leaf,
    ensures
        swept::<T, A, M>(before, now, root, seed, p),
{
    assert forall|j: int| 0 <= j < before.len() implies {
        &&& stored(#[trigger] now[j]) == (if j == root {
            Some(seed)
        } else if j < p {
            inflow::<T, A, M>(before, root, seed, j, p)
        } else {
            gradient_at::<T, A, M>(before, root, seed, j)
        })
        &&& now[j].arrived == (if j < p {
            arrivals(before, root, j, p)
        } else {
            arrivals(before, root, j, j + 1)
        })
        &&& now[j].arrived <= 2 * (root + 1 - p)
    } by {
        if j < p {
            assert(!feeds(before, p, 0, j) || !fires(before, root, p));
            assert(!feeds(before, p, 1, j) || !fires(before, root, p));
            assert(inflow::<T, A, M>(before, root, seed, j, p) == inflow::<T, A, M>(before, root, seed, j, p + 1));
            assert(arrivals(before, root, j, p) == arrivals(before, root, j, p + 1));
        }
    }
}

/// The turn of a node that propagates adds its partial gradients to what
/// its inputs hold.
proof fn lemma_turn_sent<T: Copy, A: TotalOp<T>, M: TotalOp<T>>(
    before: Seq<Node<T>>,
    start: Seq<Node<T>>,
    now: Seq<Node<T>>,
    root: int,
    seed: ArrayView<T>,
    p: int,
    first: GradientFunction,
    second: GradientFunction,
    grad: ArrayView<T>,
)
    requires
        0 <= p <= root < before.len(),
        before.len() == start.len(),
        before.len() == now.len(),
        swept::<T, A, M>(before, start, root, seed, p + 1),
        fires(before, root, p),
        gradient_at::<T, A, M>(before, root, seed, p) == Some(grad),
        first == edge(before, p, 0),
        second == edge(before, p, 1),
        points_below(first, p),
        points_below(second, p),
        forall|j: int|
            0 <= j < before.len() ==> {
                &&& stored(#[trigger] now[j]) == after_turn::<T, A>(
                    stored(start[j]),
                    first,
                    second,
                    j,
                    partial::<T, M>(before, p, 0, grad),
                    partial::<T, M>(before, p, 1, grad),
                )
                &&& now[j].arrived == start[j].arrived + (if feeds_target(first, j) {
                    1nat
                } else {
                    0nat
                }) + (if feeds_target(second, j) {
                    1nat
                } else {
                    0nat
                })
            },
    ensures
        swept::<T, A, M>(before, now, root, seed, p),
{
    assert forall|j: int| 0 <= j < before.len() implies {
        &&& stored(#[trigger] now[j]) == (if j == root {
            Some(seed)
        } else if j < p {
            inflow::<T, A, M>(before, root, seed, j, p)
        } else {
            gradient_at::<T, A, M>(before, root, seed, j)
        })
        &&& now[j].arrived == (if j < p {
            arrivals(before, root, j, p)
        } else {
            arrivals(before, root, j, j + 1)
        })
        &&& now[j].arrived <= 2 * (root + 1 - p)
    } by {
        assert(feeds(before, p, 0, j) == feeds_target(first, j));
        assert(feeds(before, p, 1, j) == feeds_target(second, j));
        assert(stored(start[j]) == (if j == root {
            Some(seed)
        } else if j < p + 1 {
            inflow::<T, A, M>(before, root, seed, j, p + 1)
        } else {
            gradient_at::<T, A, M>(before, root, seed, j)
        }));
        if j >= p {
            assert(!feeds_target(first, j));
            assert(!feeds_target(second, j));
        } else {
            let later = inflow::<T, A, M>(before, root, seed, j, p + 1);
            assert(inflow::<T, A, M>(before, root, seed, j, p) == after_turn::<T, A>(
                later,
                first,
                second,
                j,
                partial::<T, M>(before, p, 0, grad),
                partial::<T, M>(before, p, 1, grad),
            ));
        }
    }
}


/// A leaf used as both operands of one product receives both partial
/// gradients, summed: in the graph of `y = x * x`, a backward pass from
/// `y` leaves `rhs * seed + lhs * seed` at the leaf, and the leaf counts
/// exactly the two arrivals it was waiting for.
pub proof fn lemma_fan_out_sums_both_edges<T: Copy, A: TotalOp<T>, M: TotalOp<T>>(
    nodes: Seq<Node<T>>,
    op: DotBackwards<T>,
    seed: ArrayView<T>,
)
    requires
        nodes.len() == 2,
        nodes[0].operation is Leaf,
        nodes[0].fan_in == 2,
        nodes[1].operation == Operation::Dot(op),
        op.next_functions@[0] == GradientFunction::Node(0),
        op.next_functions@[1] == GradientFunction::Node(0),
    ensures
        arrivals(nodes, 1, 0, 1) == 2,
        fires(nodes, 1, 0),
        gradient_at::<T, A, M>(nodes, 1, seed, 0) == Some(
            zipped::<T, A>(zipped::<T, M>(op.rhs@, seed), zipped::<T, M>(op.lhs@, seed)),
        ),
{
    assert(fires(nodes, 1, 1));
    assert(gradient_at::<T, A, M>(nodes, 1, seed, 1) == Some(seed));
    assert(feeds(nodes, 1, 0, 0) && feeds(nodes, 1, 1, 0));
    assert(arrivals(nodes, 1, 0, 2) == 0);
    assert(inflow::<T, A, M>(nodes, 1, seed, 0, 2).is_none());
    assert(arrivals(nodes, 1, 0, 1) == 2);
    assert(inflow::<T, A, M>(nodes, 1, seed, 0, 1) == accumulate::<T, A>(
        accumulate::<T, A>(None, partial::<T, M>(nodes, 1, 0, seed)),
        partial::<T, M>(nodes, 1, 1, seed),
    ));
}

/// A state with the operations, shapes and fan-ins of a well-formed
/// graph, whose gradients lie inside their buffers, is well-formed.
proof fn lemma_structure_keeps_well_formed<T: Copy>(before: Seq<Node<T>>, now: Seq<Node<T>>)
    requires
        well_formed(before),
        same_structure(before, now),
        forall|j: int|
            0 <= j < now.len() ==> match (#[trigger] now[j]).gradient {
                Some(array) => array.wf(),
                None => true,
            },
    ensures
        well_formed(now),
{
    assert forall|j: int| 0 <= j < now.len() implies node_ok(now, j) by {
        assert(node_ok(before, j));
        lemma_consumers_same(before, now, j);
        match before[j].operation {
            Operation::Leaf => {},
            Operation::Dot(op) => {
                if let GradientFunction::Node(h) = op.next_functions@[0] {
                    assert(now[h as int].shape@ == before[h as int].shape@);
                }
                if let GradientFunction::Node(h) = op.next_functions@[1] {
                    assert(now[h as int].shape@ == before[h as int].shape@);
                }
            },
        }
    }
}

impl<T: Copy> Graph<T> {
    /// The nodes, in the order in which they were recorded.
    pub closed spec fn view(&self) -> Seq<Node<T>> {
        self.nodes@
    }

    /// The graph's invariant.
    pub open spec fn wf(&self) -> bool {
        well_formed(self@)
    }

    /// An empty graph.
    pub fn new() -> (g: Graph<T>)
        ensures
            g.wf(),
            g@.len() == 0,
    {
        Graph { nodes: Vec::new() }
    }

    /// Number of nodes recorded.
    pub fn len(&self) -> (n: usize)
        ensures
            n == self@.len(),
    {
        self.nodes.len()
    }

    /// A copy of the shape of the value that `node` produced, or `None` if
    /// the graph has no such node.
    pub fn node_shape(&self, node: usize) -> (shape: Option<Vec<usize>>)
        ensures
            shape.is_some() <==> node < self@.len(),
            match shape {
                Some(copy) => copy@ == self@[node as int].shape@,
                None => true,
            },
    {
        if node < self.nodes.len() {
            Some(slice_to_vec(self.nodes[node].shape.as_slice()))
        } else {
            None
        }
    }

    /// Sends one contribution to the backward function `target`: the node
    /// stores the first contribution and adds every further one to what it
    /// holds, through the broadcasting dispatcher.
    fn deliver<A: TotalOp<T>>(&mut self, target: GradientFunction, contribution: NdArray<T>)
        requires
            contribution.wf(),
            match target {
                GradientFunction::NoOp => true,
                GradientFunction::Node(j) => {
                    &&& j < old(self)@.len()
                    &&& old(self)@[j as int].arrived < u128::MAX
                    &&& match old(self)@[j as int].gradient {
                        Some(array) => {
                            &&& array.wf()
                            &&& broadcastable(array.shape@, contribution.shape@)
                            &&& volume(broadcast_shape(array.shape@, contribution.shape@))
                                <= usize::MAX
                        },
                        None => true,
                    }
                },
            },
        ensures
            same_structure(old(self)@, final(self)@),
            match target {
                GradientFunction::NoOp => final(self)@ == old(self)@,
                GradientFunction::Node(j) => {
                    &&& forall|i: int|
                        0 <= i < old(self)@.len() && i != j ==> final(self)@[i] == old(self)@[i]
                    &&& final(self)@[j as int].arrived == old(self)@[j as int].arrived + 1
                    &&& stored(final(self)@[j as int]) == accumulate::<T, A>(
                        stored(old(self)@[j as int]),
                        contribution@,
                    )
                    &&& match final(self)@[j as int].gradient {
                        Some(array) => array.wf(),
                        None => false,
                    }
                },
            },
    {
        match target {
            GradientFunction::NoOp => {},
            GradientFunction::Node(j) => {
                let sum = match &self.nodes[j].gradient {
                    None => contribution,
                    Some(held) => held.zip::<A>(&contribution).unwrap(),
                };
                self.nodes[j].gradient = Some(sum);
                self.nodes[j].arrived = self.nodes[j].arrived + 1;
            },
        }
    }

    /// Counts one more consumer of `target` unless it is the no-op sink.
    fn bump(&mut self, target: GradientFunction)
        requires
            match target {
                GradientFunction::NoOp => true,
                GradientFunction::Node(j) => j < old(self)@.len() && old(self)@[j as int].fan_in
                    < u128::MAX,
            },
        ensures
            final(self)@.len() == old(self)@.len(),
            forall|i: int|
                #![trigger final(self)@[i]]
                #![trigger old(self)@[i]]
                0 <= i < old(self)@.len() ==> {
                    &&& final(self)@[i].operation == old(self)@[i].operation
                    &&& final(self)@[i].shape == old(self)@[i].shape
                    &&& final(self)@[i].arrived == old(self)@[i].arrived
                    &&& final(self)@[i].gradient == old(self)@[i].gradient
                    &&& final(self)@[i].fan_in == old(self)@[i].fan_in + (if feeds_target(
                        target,
                        i,
                    ) {
                        1nat
                    } else {
                        0nat
                    })
                },
    {
        match target {
            GradientFunction::NoOp => {},
            GradientFunction::Node(j) => {
                self.nodes[j].fan_in = self.nodes[j].fan_in + 1;
            },
        }
    }

    /// Registers a tracked leaf whose value has the given shape.
    pub fn leaf(&mut self, shape: Vec<usize>) -> (f: GradientFunction)
        requires
            old(self).wf(),
        ensures
            final(self).wf(),
            f == GradientFunction::Node(old(self)@.len() as usize),
            final(self)@.len() == old(self)@.len() + 1,
            forall|i: int|
                #![trigger final(self)@[i]]
                #![trigger old(self)@[i]]
                0 <= i < old(self)@.len() ==> final(self)@[i] == old(self)@[i],
            final(self)@[old(self)@.len() as int].operation == Operation::<T>::Leaf,
            final(self)@[old(self)@.len() as int].shape@ == shape@,
            final(self)@[old(self)@.len() as int].fan_in == 0,
            final(self)@[old(self)@.len() as int].arrived == 0,
            final(self)@[old(self)@.len() as int].gradient.is_none(),
    {
        let handle = self.nodes.len();
        self.nodes.push(
            Node { operation: Operation::Leaf, shape, fan_in: 0, arrived: 0, gradient: None },
        );
        proof {
            let now = self.nodes@;
            assert(now.drop_last() =~= old(self)@);
            assert(same_operations(old(self)@, old(self)@));
            lemma_well_formed_links_back(old(self)@, old(self)@);
            assert forall|i: int| 0 <= i < now.len() implies node_ok(now, i) by {
                if i < handle {
                    assert(node_ok(old(self)@, i));
                } else {
                    lemma_consumers_none(old(self)@, i);
                }
            }
        }
        GradientFunction::Node(handle)
    }

    /// The operation `op` can be recorded: its operands are views inside
    /// their buffers that broadcast against each other, and each of its
    /// inputs is untracked or was produced by a node of the operand's
    /// shape.
    pub open spec fn recordable(&self, op: DotBackwards<T>) -> bool {
        &&& op.lhs.wf()
        &&& op.rhs.wf()
        &&& broadcastable(op.lhs.shape@, op.rhs.shape@)
        &&& target_ok(self@, op.lhs.shape@, op.next_functions@[0])
        &&& target_ok(self@, op.rhs.shape@, op.next_functions@[1])
    }

    fn accepts_target(&self, operand: &[usize], target: GradientFunction) -> (ok: bool)
        ensures
            ok == target_ok(self@, operand@, target),
    {
        match target {
            GradientFunction::NoOp => true,
            GradientFunction::Node(j) => j < self.nodes.len() && same_shape(
                self.nodes[j].shape.as_slice(),
                operand,
            ),
        }
    }

    /// Whether `op` can be recorded in this graph.
    pub fn can_record(&self, op: &DotBackwards<T>) -> (ok: bool)
        ensures
            ok == self.recordable(*op),
    {
        op.lhs.is_valid() && op.rhs.is_valid() && broadcast_shapes(
            op.lhs.shape.as_slice(),
            op.rhs.shape.as_slice(),
        ).is_some()
            && self.accepts_target(op.lhs.shape.as_slice(), op.next_functions[0])
            && self.accepts_target(op.rhs.shape.as_slice(), op.next_functions[1])
    }

    /// Records an operation as a new node and counts it as a consumer of
    /// each node that produced one of its inputs.
    pub fn record_op(&mut self, op: DotBackwards<T>) -> (f: GradientFunction)
        requires
            old(self).wf(),
            old(self).recordable(op),
        ensures
            final(self).wf(),
            f == GradientFunction::Node(old(self)@.len() as usize),
            final(self)@.len() == old(self)@.len() + 1,
            final(self)@[old(self)@.len() as int].operation == Operation::Dot(op),
            final(self)@[old(self)@.len() as int].shape@ == broadcast_shape(
                op.lhs.shape@,
                op.rhs.shape@,
            ),
            final(self)@[old(self)@.len() as int].fan_in == 0,
            final(self)@[old(self)@.len() as int].arrived == 0,
            final(self)@[old(self)@.len() as int].gradient.is_none(),
            forall|i: int|
                #![trigger final(self)@[i]]
                #![trigger old(self)@[i]]
                0 <= i < old(self)@.len() ==> {
                    &&& final(self)@[i].operation == old(self)@[i].operation
                    &&& final(self)@[i].shape == old(self)@[i].shape
                    &&& final(self)@[i].arrived == old(self)@[i].arrived
                    &&& final(self)@[i].gradient == old(self)@[i].gradient
                    &&& final(self)@[i].fan_in == old(self)@[i].fan_in + uses(op, i)
                },
    {
        let handle = self.nodes.len();
        let shape = broadcast_shapes(op.lhs.shape.as_slice(), op.rhs.shape.as_slice()).unwrap();
        let first = op.next_functions[0];
        let second = op.next_functions[1];
        let ghost before = self.nodes@;
        proof {
            assert forall|i: int| 0 <= i < before.len() implies before[i].fan_in <= 2
                * before.len() by {
                assert(node_ok(before, i));
                lemma_consumers_bound(before, i);
            }
        }
        self.bump(first);
        self.bump(second);
        let ghost bumped = self.nodes@;
        self.nodes.push(
            Node { operation: Operation::Dot(op), shape, fan_in: 0, arrived: 0, gradient: None },
        );
        proof {
            let now = self.nodes@;
            assert(now.drop_last() =~= bumped);
            assert(same_operations(before, bumped));
            lemma_well_formed_links_back(bumped, before);
            assert forall|i: int| 0 <= i < now.len() implies node_ok(now, i) by {
                lemma_consumers_same(before, bumped, i);
                if i < handle {
                    assert(node_ok(before, i));
                    assert(now[i] == bumped[i]);
                    assert(bumped[i].fan_in == before[i].fan_in + uses(op, i));
                    match before[i].operation {
                        Operation::Leaf => {},
                        Operation::Dot(earlier) => {
                            if let GradientFunction::Node(h) = earlier.next_functions@[0] {
                                assert(now[h as int].shape == before[h as int].shape);
                            }
                            if let GradientFunction::Node(h) = earlier.next_functions@[1] {
                                assert(now[h as int].shape == before[h as int].shape);
                            }
                        },
                    }
                } else {
                    lemma_consumers_none(bumped, i);
                    if let GradientFunction::Node(h) = first {
                        assert(now[h as int].shape == before[h as int].shape);
                    }
                    if let GradientFunction::Node(h) = second {
                        assert(now[h as int].shape == before[h as int].shape);
                    }
                }
            }
        }
        GradientFunction::Node(handle)
    }

    /// The forward pass of a product: computes `lhs * rhs` under standard
    /// broadcasting, through the dispatcher, and records the operation, so
    /// that a later backward pass can send gradients to the producers of
    /// both operands. The result is `None`, and nothing is recorded, if an
    /// operand reaches past the end of its buffer, if the shapes do not
    /// broadcast against each other, if the product would hold more
    /// elements than `usize` can count, or if an operand carries a handle
    /// that does not belong to a node of its shape.
    pub fn multiply<M: TotalOp<T>>(&mut self, lhs: &Tensor<T>, rhs: &Tensor<T>) -> (out: Option<
        Tensor<T>,
    >)
        requires
            old(self).wf(),
        ensures
            final(self).wf(),
            out.is_some() <==> {
                &&& lhs.ndarray.wf()
                &&& rhs.ndarray.wf()
                &&& broadcastable(lhs.ndarray.shape@, rhs.ndarray.shape@)
                &&& volume(broadcast_shape(lhs.ndarray.shape@, rhs.ndarray.shape@)) <= usize::MAX
                &&& target_ok(old(self)@, lhs.ndarray.shape@, lhs.grad_fn)
                &&& target_ok(old(self)@, rhs.ndarray.shape@, rhs.grad_fn)
            },
            match out {
                None => final(self)@ == old(self)@,
                Some(product) => {
                    &&& product.ndarray.wf()
                    &&& product.ndarray.shape@ == broadcast_shape(
                        lhs.ndarray.shape@,
                        rhs.ndarray.shape@,
                    )
                    &&& product.ndarray@ == zipped::<T, M>(lhs.ndarray@, rhs.ndarray@)
                    &&& product.ndarray.items() == elementwise::<T, M>(
                        lhs.ndarray.items_as(product.ndarray.shape@),
                        rhs.ndarray.items_as(product.ndarray.shape@),
                    )
                    &&& product.grad_fn == GradientFunction::Node(old(self)@.len() as usize)
                    &&& final(self)@.len() == old(self)@.len() + 1
                    &&& match final(self)@[old(self)@.len() as int].operation {
                        Operation::Leaf => false,
                        Operation::Dot(op) => {
                            &&& op.lhs.data@ == lhs.ndarray.data@
                            &&& op.lhs.shape@ == lhs.ndarray.shape@
                            &&& op.lhs.stride@ == lhs.ndarray.stride@
                            &&& op.rhs.data@ == rhs.ndarray.data@
                            &&& op.rhs.shape@ == rhs.ndarray.shape@
                            &&& op.rhs.stride@ == rhs.ndarray.stride@
                            &&& op.next_functions@[0] == lhs.grad_fn
                            &&& op.next_functions@[1] == rhs.grad_fn
                        },
                    }
                    &&& final(self)@[old(self)@.len() as int].shape@ == product.ndarray.shape@
                    &&& final(self)@[old(self)@.len() as int].fan_in == 0
                    &&& final(self)@[old(self)@.len() as int].arrived == 0
                    &&& final(self)@[old(self)@.len() as int].gradient.is_none()
                    &&& forall|i: int|
                        #![trigger final(self)@[i]]
                        #![trigger old(self)@[i]]
                        0 <= i < old(self)@.len() ==> {
                            &&& final(self)@[i].operation == old(self)@[i].operation
                            &&& final(self)@[i].shape == old(self)@[i].shape
                            &&& final(self)@[i].arrived == old(self)@[i].arrived
                            &&& final(self)@[i].gradient == old(self)@[i].gradient
                            &&& final(self)@[i].fan_in == old(self)@[i].fan_in + pair_uses(
                                lhs.grad_fn,
                                rhs.grad_fn,
                                i,
                            )
                        }
                },
            },
    {
        let op = DotBackwards::new(lhs, rhs);
        if !self.can_record(&op) {
            return None;
        }
        let values = match lhs.ndarray.zip::<M>(&rhs.ndarray) {
            Some(values) => values,
            None => {
                return None;
            },
        };
        let handle = self.record_op(op);
        Some(Tensor::new(values, handle))
    }

    /// A copy of the gradient accumulated at `node`, or `None` if it has
    /// received none, which is the case for every node before the first
    /// backward pass, and always for the no-op sink.
    pub fn read_accumulated_gradient(&self, node: GradientFunction) -> (grad: Option<NdArray<T>>)
        ensures
            match node {
                GradientFunction::NoOp => grad.is_none(),
                GradientFunction::Node(j) => if j < self@.len() {
                    match (grad, self@[j as int].gradient) {
                        (Some(copy), Some(held)) => {
                            &&& copy.data@ == held.data@
                            &&& copy.shape@ == held.shape@
                            &&& copy.stride@ == held.stride@
                            &&& stored(self@[j as int]) == Some(copy@)
                        },
                        (None, None) => true,
                        _ => false,
                    }
                } else {
                    grad.is_none()
                },
            },
    {
        match node {
            GradientFunction::NoOp => None,
            GradientFunction::Node(j) => {
                if j < self.nodes.len() {
                    match &self.nodes[j].gradient {
                        Some(held) => Some(held.duplicate()),
                        None => None,
                    }
                } else {
                    None
                }
            },
        }
    }

    /// Clears the accumulator and the arrival count of every node.
    fn reset(&mut self)
        requires
            old(self).wf(),
        ensures
            final(self).wf(),
            same_structure(old(self)@, final(self)@),
            forall|i: int|
                0 <= i < final(self)@.len() ==> (#[trigger] final(self)@[i]).arrived == 0
                    && final(self)@[i].gradient.is_none(),
    {
        let ghost before = self.nodes@;
        let n = self.nodes.len();
        let mut i: usize = 0;
        while i < n
            invariant
                i <= n,
                n == before.len(),
                well_formed(before),
                same_structure(before, self.nodes@),
                forall|k: int|
                    0 <= k < i ==> (#[trigger] self.nodes@[k]).arrived == 0
                        && self.nodes@[k].gradient.is_none(),
                forall|k: int| i <= k < n ==> self.nodes@[k] == before[k],
            decreases n - i,
        {
            self.nodes[i].arrived = 0;
            self.nodes[i].gradient = None;
            i += 1;
        }
        proof {
            lemma_structure_keeps_well_formed(before, self.nodes@);
        }
    }

    /// Lets node `p` have its turn: if every expected contribution has
    /// arrived, it sends a partial gradient to each of its inputs.
    fn propagate<A: TotalOp<T>, M: TotalOp<T>>(
        &mut self,
        p: usize,
        root: usize,
        Ghost(before): Ghost<Seq<Node<T>>>,
        Ghost(top): Ghost<Seq<usize>>,
        Ghost(seed): Ghost<ArrayView<T>>,
    )
        requires
            p <= root < before.len(),
            bounded(top),
            well_formed(before),
            well_formed(old(self)@),
            same_structure(before, old(self)@),
            carries(before, old(self)@, top),
            swept::<T, A, M>(before, old(self)@, root as int, seed, p + 1),
        ensures
            well_formed(final(self)@),
            same_structure(before, final(self)@),
            carries(before, final(self)@, top),
            swept::<T, A, M>(before, final(self)@, root as int, seed, p as int),
    {
        let ghost start = self.nodes@;
        let ghost r = root as int;
        proof {
            assert(node_ok(before, p as int));
            assert(node_ok(start, p as int));
            assert(start[p as int].operation == before[p as int].operation);
            assert(stored(start[p as int]) == gradient_at::<T, A, M>(before, r, seed, p as int));
            lemma_fired_has_gradient::<T, A, M>(before, r, seed, p as int);
        }
        let fire = p == root || (self.nodes[p].arrived > 0 && self.nodes[p].arrived
            == self.nodes[p].fan_in);
        assert(fire == fires(before, r, p as int));
        let sent = if fire {
            match &self.nodes[p].operation {
                Operation::Leaf => None,
                Operation::Dot(op) => match &self.nodes[p].gradient {
                    None => None,
                    Some(grad) => {
                        proof {
                            lemma_broadcast_shape_covers(op.lhs.shape@, op.rhs.shape@);
                            lemma_broadcasts_to_transitive(
                                op.lhs.shape@,
                                before[p as int].shape@,
                                top,
                            );
                            lemma_broadcasts_to_transitive(
                                op.rhs.shape@,
                                before[p as int].shape@,
                                top,
                            );
                            lemma_join_below(op.lhs.shape@, grad.shape@, top);
                            lemma_join_below(op.rhs.shape@, grad.shape@, top);
                            assert(broadcasts_to(
                                broadcast_shape(op.lhs.shape@, grad.shape@),
                                top,
                            ));
                            assert(broadcasts_to(
                                broadcast_shape(op.rhs.shape@, grad.shape@),
                                top,
                            ));
                        }
                        let partials = op.backward::<M>(grad);
                        Some((op.next_functions[0], op.next_functions[1], partials.0, partials.1))
                    },
                },
            }
        } else {
            None
        };
        match sent {
            None => {
                proof {
                    lemma_turn_idle::<T, A, M>(before, start, r, seed, p as int);
                }
            },
            Some((first, second, to_first, to_second)) => {
                let ghost grad = gradient_at::<T, A, M>(before, r, seed, p as int).unwrap();
                let ghost first_view = to_first@;
                let ghost second_view = to_second@;
                proof {
                    assert(first_view == partial::<T, M>(before, p as int, 0, grad));
                    assert(second_view == partial::<T, M>(before, p as int, 1, grad));
                    assert(broadcasts_to(first_view.shape, top));
                    assert(broadcasts_to(second_view.shape, top));
                    if let GradientFunction::Node(j) = first {
                        assert(node_ok(start, j as int));
                        if let Some(held) = start[j as int].gradient {
                            lemma_join_below(held.shape@, first_view.shape, top);
                            assert(broadcasts_to(
                                broadcast_shape(held.shape@, first_view.shape),
                                top,
                            ));
                        }
                    }
                }
                self.deliver::<A>(first, to_first);
                let ghost middle = self.nodes@;
                proof {
                    if let GradientFunction::Node(j) = second {
                        if !feeds_target(first, j as int) {
                            assert(middle[j as int] == start[j as int]);
                            assert(node_ok(start, j as int));
                        }
                        if let Some(held) = middle[j as int].gradient {
                            if feeds_target(first, j as int) {
                                if let Some(earlier) = start[j as int].gradient {
                                    lemma_join_below(earlier.shape@, first_view.shape, top);
                                }
                            }
                            assert(broadcasts_to(held.shape@, top));
                            lemma_join_below(held.shape@, second_view.shape, top);
                            assert(broadcasts_to(
                                broadcast_shape(held.shape@, second_view.shape),
                                top,
                            ));
                        }
                    }
                }
                self.deliver::<A>(second, to_second);
                proof {
                    let now = self.nodes@;
                    assert forall|j: int| 0 <= j < before.len() implies {
                        &&& stored(#[trigger] now[j]) == after_turn::<T, A>(
                            stored(start[j]),
                            first,
                            second,
                            j,
                            first_view,
                            second_view,
                        )
                        &&& now[j].arrived == start[j].arrived + (if feeds_target(first, j) {
                            1nat
                        } else {
                            0nat
                        }) + (if feeds_target(second, j) {
                            1nat
                        } else {
                            0nat
                        })
                    } by {
                        if !feeds_target(first, j) {
                            assert(middle[j] == start[j]);
                        }
                        if !feeds_target(second, j) {
                            assert(now[j] == middle[j]);
                        }
                    }
                    lemma_turn_sent::<T, A, M>(
                        before,
                        start,
                        now,
                        r,
                        seed,
                        p as int,
                        first,
                        second,
                        grad,
                    );
                    assert forall|j: int| 0 <= j < now.len() implies match (#[trigger] now[j]).gradient {
                        Some(array) => array.wf() && broadcasts_to(array.shape@, top)
                            && broadcasts_to(before[j].shape@, top),
                        None => true,
                    } by {
                        assert(node_ok(start, j));
                        assert(node_ok(before, p as int));
                        if !feeds_target(first, j) {
                            assert(middle[j] == start[j]);
                        }
                        if !feeds_target(second, j) {
                            assert(now[j] == middle[j]);
                        }
                        if feeds_target(first, j) {
                            if let Some(earlier) = start[j].gradient {
                                lemma_join_below(earlier.shape@, first_view.shape, top);
                            }
                        }
                        if feeds_target(second, j) {
                            if let Some(held) = middle[j].gradient {
                                lemma_join_below(held.shape@, second_view.shape, top);
                            }
                        }
                    }
                    lemma_structure_keeps_well_formed(before, now);
                }
            },
        }
    }

    /// Runs a backward pass from node `root` with the gradient `seed`,
    /// which may have any shape that broadcasts against the shape of the
    /// root's value.
    ///
    /// Earlier gradients are cleared. The nodes then have their turn from
    /// `root` down to the first; a node propagates only if it is the root
    /// or has received a contribution from every one of its consumers, so
    /// each node propagates at most once and only with its complete
    /// gradient. A node that propagates multiplies each operand with its
    /// gradient, and a node that receives adds to what it holds, both under
    /// standard broadcasting. Afterwards every node holds the sum of the
    /// contributions that were sent to it.
    pub fn start_backward<A: TotalOp<T>, M: TotalOp<T>>(&mut self, root: usize, seed: &NdArray<T>)
        requires
            old(self).wf(),
            root < old(self)@.len(),
            seed.wf(),
            broadcastable(old(self)@[root as int].shape@, seed.shape@),
            bounded(broadcast_shape(old(self)@[root as int].shape@, seed.shape@)),
        ensures
            final(self).wf(),
            same_structure(old(self)@, final(self)@),
            forall|j: int|
                0 <= j < final(self)@.len() ==> {
                    &&& stored(#[trigger] final(self)@[j]) == gradient_at::<T, A, M>(
                        old(self)@,
                        root as int,
                        seed@,
                        j,
                    )
                    &&& final(self)@[j].arrived == arrivals(old(self)@, root as int, j, j + 1)
                },
    {
        let ghost before = self.nodes@;
        let ghost top = broadcast_shape(before[root as int].shape@, seed.shape@);
        let n = self.nodes.len();
        self.reset();
        self.nodes[root].gradient = Some(seed.duplicate());
        proof {
            let now = self.nodes@;
            lemma_broadcast_shape_covers(before[root as int].shape@, seed.shape@);
            assert forall|j: int| 0 <= j < now.len() implies match (#[trigger] now[j]).gradient {
                Some(array) => array.wf() && broadcasts_to(array.shape@, top) && broadcasts_to(
                    before[j].shape@,
                    top,
                ),
                None => true,
            } by {}
            lemma_structure_keeps_well_formed(before, now);
        }
        let mut c = root + 1;
        while c > 0
            invariant
                c <= root + 1,
                root < before.len(),
                before.len() == n,
                bounded(top),
                well_formed(before),
                well_formed(self.nodes@),
                same_structure(before, self.nodes@),
                carries(before, self.nodes@, top),
                swept::<T, A, M>(before, self.nodes@, root as int, seed@, c as int),
            decreases c,
        {
            c -= 1;
            self.propagate::<A, M>(c, root, Ghost(before), Ghost(top), Ghost(seed@));
        }
    }
}

} // verus!
