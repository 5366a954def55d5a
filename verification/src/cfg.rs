//! Control-flow conversion: from the AST of a program to a state
//! machine with path-sensitive transitions.
//!
//! Each state's instruction block becomes a binary-branching graph of
//! straight-line runs, held in an arena indexed by node label. A
//! depth-first search collects, for every terminal run, the guards and
//! actions of every path that reaches it.

use vstd::prelude::*;
use vstd::string::StringExecFns;
use crate::ast::ASTNode;
use crate::ast::BinVerb;
use crate::ast::NodeView;
use crate::ast::UniVerb;
use crate::error::CompileError;
use crate::utils::str_eq;
use crate::utils::trim_str;
use crate::utils::spec_trim;

verus! {

/// One outgoing edge of a state: a target state, the conjunction of the
/// guards along the path that reaches it, and the actions executed along
/// that path. Distinct paths to one target stay distinct entries.
#[derive(Debug, PartialEq)]
pub struct Transition {
    pub target: String,
    pub guards: Option<Vec<ASTNode>>,
    pub actions: Option<Vec<ASTNode>>,
}

/// The mathematical view of a [`Transition`].
#[verifier::ext_equal]
pub struct TransitionView {
    pub target: Seq<char>,
    pub guards: Option<Seq<NodeView>>,
    pub actions: Option<Seq<NodeView>>,
}

/// The ordered transition list of one state.
#[derive(Debug, PartialEq)]
pub struct Transitions {
    pub trans: Vec<Transition>,
}

/// The (kind, name) identity of a declared structure.
#[derive(Debug)]
pub struct Scope {
    pub label: Structure,
    pub name: String,
}

/// The mathematical view of a [`Scope`].
#[verifier::ext_equal]
pub struct ScopeView {
    pub label: Structure,
    pub name: Seq<char>,
}

/// One instruction recorded in a state or in a control-flow node.
#[derive(Debug)]
pub enum Inst {
    Stmt(ASTNode),
}

/// The kind of a declared structure. A kind name that is none of the
/// known ones is retained as `Unrecognized` and otherwise inert.
#[derive(Debug, PartialEq, Eq, Structural, Clone, Copy)]
pub enum Structure {
    ControllerEntry,
    Controller,
    StateQueue,
    State,
    ControllerControlFlow,
    Unrecognized,
}

/// One assembled state: its scope, its direct declaration instructions,
/// and its ordered transition list.
#[derive(Debug)]
pub struct State {
    pub scope: Scope,
    pub insts: Vec<Inst>,
    pub next: Transitions,
}

/// The mathematical view of a [`State`].
#[verifier::ext_equal]
pub struct StateView {
    pub scope: ScopeView,
    pub insts: Seq<NodeView>,
    pub next: Seq<TransitionView>,
}

/// One maximal straight-line run of a state body. Successors are stored
/// as labels resolved through the arena that holds the run, never as
/// ownership links; a label equals the node's index in its arena.
#[derive(Debug)]
pub struct ControlFlow {
    pub label: usize,
    pub insts: Vec<Inst>,
    pub cond: Option<ASTNode>,
    pub lhs: Option<usize>,
    pub rhs: Option<usize>,
}

/// The mathematical view of a [`ControlFlow`] node.
#[verifier::ext_equal]
pub struct ControlFlowView {
    pub label: int,
    pub insts: Seq<NodeView>,
    pub cond: Option<NodeView>,
    pub lhs: Option<int>,
    pub rhs: Option<int>,
}

/// The assembled machine: its name, its entry state name, and the
/// insertion-ordered state list. A scope is looked up through
/// [`StateMachine::get_cfg`]; scopes are expected to be unique per
/// machine.
#[derive(Debug)]
pub struct StateMachine {
    pub fsm_name: String,
    pub entry: String,
    pub cfgs: Vec<State>,
}

/// The mathematical view of a [`StateMachine`].
#[verifier::ext_equal]
pub struct StateMachineView {
    pub fsm_name: Seq<char>,
    pub entry: Seq<char>,
    pub cfgs: Seq<StateView>,
}

impl View for Inst {
    type V = NodeView;

    open spec fn view(&self) -> NodeView {
        match self {
            Inst::Stmt(n) => n@,
        }
    }
}

impl Clone for Inst {
    /// A clone of an instruction has the same view as the instruction.
    fn clone(&self) -> (res: Self)
        ensures
            res@ == self@,
    {
        match self {
            Inst::Stmt(n) => Inst::Stmt(n.clone()),
        }
    }
}

/// The views of a sequence of instructions, element by element.
pub open spec fn insts_view(s: Seq<Inst>) -> Seq<NodeView>
    decreases s,
{
    if s.len() == 0 {
        Seq::empty()
    } else {
        insts_view(s.drop_last()).push(s.last()@)
    }
}

/// A sequence of instructions is viewed element by element.
pub broadcast proof fn lemma_insts_view(s: Seq<Inst>)
    ensures
        (#[trigger] insts_view(s)).len() == s.len(),
        forall|i: int| 0 <= i < s.len() ==> insts_view(s)[i] == s[i]@,
    decreases s,
{
    if s.len() > 0 {
        lemma_insts_view(s.drop_last());
        assert forall|i: int| 0 <= i < s.len() implies insts_view(s)[i] == s[i]@ by {
            if i < s.len() - 1 {
                assert(s.drop_last()[i] == s[i]);
            }
        }
    }
}

impl View for Transition {
    type V = TransitionView;

    open spec fn view(&self) -> TransitionView {
        TransitionView {
            target: self.target@,
            guards: (match &self.guards {
                Some(v) => Some(crate::ast::nodes_view(v@)),
                None => None,
            }),
            actions: (match &self.actions {
                Some(v) => Some(crate::ast::nodes_view(v@)),
                None => None,
            }),
        }
    }
}

/// The views of a sequence of transitions, element by element.
pub open spec fn transitions_view(s: Seq<Transition>) -> Seq<TransitionView>
    decreases s,
{
    if s.len() == 0 {
        Seq::empty()
    } else {
        transitions_view(s.drop_last()).push(s.last()@)
    }
}

/// A sequence of transitions is viewed element by element.
pub broadcast proof fn lemma_transitions_view(s: Seq<Transition>)
    ensures
        (#[trigger] transitions_view(s)).len() == s.len(),
        forall|i: int| 0 <= i < s.len() ==> transitions_view(s)[i] == s[i]@,
    decreases s,
{
    if s.len() > 0 {
        lemma_transitions_view(s.drop_last());
        assert forall|i: int| 0 <= i < s.len() implies transitions_view(s)[i] == s[i]@ by {
            if i < s.len() - 1 {
                assert(s.drop_last()[i] == s[i]);
            }
        }
    }
}

impl View for Transitions {
    type V = Seq<TransitionView>;

    open spec fn view(&self) -> Seq<TransitionView> {
        transitions_view(self.trans@)
    }
}

impl View for Scope {
    type V = ScopeView;

    open spec fn view(&self) -> ScopeView {
        ScopeView { label: self.label, name: self.name@ }
    }
}

impl Clone for Scope {
    /// A clone of a scope has the same view as the scope.
    fn clone(&self) -> (res: Self)
        ensures
            res@ == self@,
    {
        Scope { label: self.label, name: self.name.clone() }
    }
}

impl PartialEq for Scope {
    /// Two scopes are equal when their kinds and their names agree.
    fn eq(&self, other: &Self) -> (r: bool) {
        self.label == other.label && self.name.eq(&other.name)
    }
}

impl vstd::std_specs::cmp::PartialEqSpecImpl for Scope {
    open spec fn obeys_eq_spec() -> bool {
        true
    }

    open spec fn eq_spec(&self, other: &Scope) -> bool {
        self@ == other@
    }
}

impl View for State {
    type V = StateView;

    open spec fn view(&self) -> StateView {
        StateView { scope: self.scope@, insts: insts_view(self.insts@), next: self.next@ }
    }
}

/// The views of a sequence of states, element by element.
pub open spec fn states_view(s: Seq<State>) -> Seq<StateView>
    decreases s,
{
    if s.len() == 0 {
        Seq::empty()
    } else {
        states_view(s.drop_last()).push(s.last()@)
    }
}

/// A sequence of states is viewed element by element.
pub broadcast proof fn lemma_states_view(s: Seq<State>)
    ensures
        (#[trigger] states_view(s)).len() == s.len(),
        forall|i: int| 0 <= i < s.len() ==> states_view(s)[i] == s[i]@,
    decreases s,
{
    if s.len() > 0 {
        lemma_states_view(s.drop_last());
        assert forall|i: int| 0 <= i < s.len() implies states_view(s)[i] == s[i]@ by {
            if i < s.len() - 1 {
                assert(s.drop_last()[i] == s[i]);
            }
        }
    }
}

impl View for ControlFlow {
    type V = ControlFlowView;

    open spec fn view(&self) -> ControlFlowView {
        ControlFlowView {
            label: self.label as int,
            insts: insts_view(self.insts@),
            cond: (match &self.cond {
                Some(c) => Some(c@),
                None => None,
            }),
            lhs: (match self.lhs {
                Some(l) => Some(l as int),
                None => None,
            }),
            rhs: (match self.rhs {
                Some(r) => Some(r as int),
                None => None,
            }),
        }
    }
}

/// The views of an arena of control-flow nodes, element by element.
pub open spec fn arena_view(s: Seq<ControlFlow>) -> Seq<ControlFlowView>
    decreases s,
{
    if s.len() == 0 {
        Seq::empty()
    } else {
        arena_view(s.drop_last()).push(s.last()@)
    }
}

/// An arena is viewed element by element.
pub broadcast proof fn lemma_arena_view(s: Seq<ControlFlow>)
    ensures
        (#[trigger] arena_view(s)).len() == s.len(),
        forall|i: int| 0 <= i < s.len() ==> arena_view(s)[i] == s[i]@,
    decreases s,
{
    if s.len() > 0 {
        lemma_arena_view(s.drop_last());
        assert forall|i: int| 0 <= i < s.len() implies arena_view(s)[i] == s[i]@ by {
            if i < s.len() - 1 {
                assert(s.drop_last()[i] == s[i]);
            }
        }
    }
}

impl View for StateMachine {
    type V = StateMachineView;

    open spec fn view(&self) -> StateMachineView {
        StateMachineView {
            fsm_name: self.fsm_name@,
            entry: self.entry@,
            cfgs: states_view(self.cfgs@),
        }
    }
}

impl Transition {
    /// A fresh transition to `target`, with no guards and no actions.
    fn new(target: String) -> (r: Self)
        ensures
            r@ == (TransitionView { target: target@, guards: None, actions: None }),
    {
        Transition { target, guards: None, actions: None }
    }

    /// Appends one guard to the conjunction, starting the list when it
    /// does not exist yet.
    fn insert_guard(&mut self, guard: ASTNode)
        ensures
            final(self)@.target == old(self)@.target,
            final(self)@.actions == old(self)@.actions,
            final(self)@.guards == (match old(self)@.guards {
                Some(g) => Some(g.push(guard@)),
                None => Some(seq![guard@]),
            }),
    {
        let prev = self.guards.take();
        match prev {
            Some(mut guards) => {
                let ghost old_vec = guards@;
                guards.push(guard);
                proof {
                    crate::ast::lemma_nodes_view(old_vec);
                    crate::ast::lemma_nodes_view(guards@);
                    assert(guards@.drop_last() =~= old_vec);
                    assert(crate::ast::nodes_view(guards@) =~= crate::ast::nodes_view(
                        old_vec,
                    ).push(guards@.last()@));
                }
                self.guards = Some(guards);
            },
            None => {
                let mut temp: Vec<ASTNode> = Vec::new();
                temp.push(guard);
                proof {
                    crate::ast::lemma_nodes_view(temp@);
                    assert(crate::ast::nodes_view(temp@) =~= seq![temp@.last()@]);
                }
                self.guards = Some(temp);
            },
        }
    }
}

impl Transitions {
    /// An empty transition list.
    fn new() -> (r: Self)
        ensures
            r@ == Seq::<TransitionView>::empty(),
    {
        Transitions { trans: vec![] }
    }

}

impl StateMachine {
    /// An empty machine with empty name and entry.
    pub fn new() -> (r: Self)
        ensures
            r@.fsm_name == Seq::<char>::empty(),
            r@.entry == Seq::<char>::empty(),
            r@.cfgs == Seq::<StateView>::empty(),
    {
        Self { fsm_name: String::new(), entry: String::new(), cfgs: vec![] }
    }

    /// The first index whose state carries exactly this scope, if any.
    pub open spec fn spec_find_scope(cfgs: Seq<StateView>, scope: ScopeView, i: int) -> Option<int>
        decreases cfgs.len() - i,
    {
        if i < 0 || i >= cfgs.len() {
            None
        } else if cfgs[i].scope == scope {
            Some(i)
        } else {
            Self::spec_find_scope(cfgs, scope, i + 1)
        }
    }

    /// The first index whose state carries a scope of this kind, if any.
    pub open spec fn spec_find_structure(cfgs: Seq<StateView>, key: Structure, i: int) -> Option<
        int,
    >
        decreases cfgs.len() - i,
    {
        if i < 0 || i >= cfgs.len() {
            None
        } else if cfgs[i].scope.label == key {
            Some(i)
        } else {
            Self::spec_find_structure(cfgs, key, i + 1)
        }
    }

    /// Looks a state up by its scope: the first state with that scope,
    /// or nothing when the scope was never inserted.
    pub fn get_cfg(&self, scope: &Scope) -> (r: Option<&State>)
        ensures
            (match Self::spec_find_scope(self@.cfgs, scope@, 0) {
                Some(i) => r matches Some(st) && st@ == self@.cfgs[i],
                None => r is None,
            }),
    {
        proof {
            lemma_states_view(self.cfgs@);
        }
        let n = self.cfgs.len();
        let mut i: usize = 0;
        while i < n
            invariant
                i <= n,
                n == self.cfgs@.len(),
                Self::spec_find_scope(self@.cfgs, scope@, 0) == Self::spec_find_scope(
                    self@.cfgs,
                    scope@,
                    i as int,
                ),
                self@.cfgs.len() == n,
                forall|k: int|
                    0 <= k < self.cfgs@.len() ==> #[trigger] states_view(self.cfgs@)[k]
                        == self.cfgs@[k]@,
            decreases n - i,
        {
            if self.cfgs[i].scope.eq(scope) {
                return Some(&self.cfgs[i]);
            }
            i = i + 1;
        }
        None
    }

    /// Looks a state up by structure kind: the first state of that kind,
    /// or nothing when the machine has none.
    pub fn get_cfg_structure(&self, key: Structure) -> (r: Option<&State>)
        ensures
            (match Self::spec_find_structure(self@.cfgs, key, 0) {
                Some(i) => r matches Some(st) && st@ == self@.cfgs[i],
                None => r is None,
            }),
    {
        proof {
            lemma_states_view(self.cfgs@);
        }
        let n = self.cfgs.len();
        let mut i: usize = 0;
        while i < n
            invariant
                i <= n,
                n == self.cfgs@.len(),
                Self::spec_find_structure(self@.cfgs, key, 0) == Self::spec_find_structure(
                    self@.cfgs,
                    key,
                    i as int,
                ),
                self@.cfgs.len() == n,
                forall|k: int|
                    0 <= k < self.cfgs@.len() ==> #[trigger] states_view(self.cfgs@)[k]
                        == self.cfgs@[k]@,
            decreases n - i,
        {
            if self.cfgs[i].scope.label == key {
                return Some(&self.cfgs[i]);
            }
            i = i + 1;
        }
        None
    }

    /// The name of the first state of this kind, or the empty string
    /// when the machine has none.
    pub fn get_cfg_name_by_structure(&self, key: Structure) -> (r: String)
        ensures
            r@ == (match Self::spec_find_structure(self@.cfgs, key, 0) {
                Some(i) => self@.cfgs[i].scope.name,
                None => Seq::<char>::empty(),
            }),
    {
        match self.get_cfg_structure(key) {
            Some(cfg) => cfg.scope.name.clone(),
            None => String::new(),
        }
    }

    /// Appends one assembled state to the machine. The scope argument
    /// names the state's identity and is expected to equal the state's
    /// own scope.
    pub fn insert_cfg(&mut self, scope: Scope, cfg: State)
        ensures
            final(self)@.fsm_name == old(self)@.fsm_name,
            final(self)@.entry == old(self)@.entry,
            final(self)@.cfgs == old(self)@.cfgs.push(cfg@),
    {
        let _ = scope;
        self.cfgs.push(cfg);
        proof {
            lemma_states_view(self.cfgs@);
            lemma_states_view(old(self).cfgs@);
            assert(states_view(self.cfgs@) =~= states_view(old(self).cfgs@).push(
                self.cfgs@.last()@,
            ));
        }
    }
}

impl State {
    /// A fresh state for a scope, with no instructions and no
    /// transitions.
    pub fn new(scope: Scope) -> (r: Self)
        ensures
            r@.scope == scope@,
            r@.insts == Seq::<NodeView>::empty(),
            r@.next == Seq::<TransitionView>::empty(),
    {
        Self { scope, insts: vec![], next: Transitions::new() }
    }

    /// Appends one direct instruction.
    pub fn insert_inst(&mut self, inst: Inst)
        ensures
            final(self)@.scope == old(self)@.scope,
            final(self)@.next == old(self)@.next,
            final(self)@.insts == old(self)@.insts.push(inst@),
    {
        self.insts.push(inst);
        proof {
            lemma_insts_view(self.insts@);
            lemma_insts_view(old(self).insts@);
            assert(insts_view(self.insts@) =~= insts_view(old(self).insts@).push(
                self.insts@.last()@,
            ));
        }
    }
}

impl ControlFlow {
    /// A fresh, empty straight-line run. The builder assigns the label
    /// when it places the run into its arena.
    fn new() -> (r: Self)
        ensures
            r@ == (ControlFlowView {
                label: 0,
                insts: Seq::<NodeView>::empty(),
                cond: None,
                lhs: None,
                rhs: None,
            }),
    {
        ControlFlow { label: 0, cond: None, insts: vec![], lhs: None, rhs: None }
    }

    /// Sets the true-branch successor.
    fn add_next_lhs(&mut self, cfg: usize)
        ensures
            final(self)@ == (ControlFlowView { lhs: Some(cfg as int), ..old(self)@ }),
    {
        self.lhs = Some(cfg)
    }

    /// Sets the false-branch successor.
    fn add_next_rhs(&mut self, cfg: usize)
        ensures
            final(self)@ == (ControlFlowView { rhs: Some(cfg as int), ..old(self)@ }),
    {
        self.rhs = Some(cfg)
    }

    /// Sets the branch condition of the run.
    fn add_cond(&mut self, cond: ASTNode)
        ensures
            final(self)@ == (ControlFlowView { cond: Some(cond@), ..old(self)@ }),
    {
        self.cond = Some(cond);
    }
}

/// The logical negation of a guard condition: a comparison has its verb
/// wrapped in `Neg`, which lowering later resolves to the complementary
/// comparison; any other expression is wrapped in a unary `Not`.
pub open spec fn spec_negate(c: NodeView) -> NodeView {
    match c {
        NodeView::BinOp { verb, lhs, rhs } => NodeView::BinOp {
            verb: BinVerb::Neg(Box::new(verb)),
            lhs,
            rhs,
        },
        _ => NodeView::UnuaryOp { verb: UniVerb::Not, term: Box::new(c) },
    }
}

/// Negates a guard condition, per [`spec_negate`].
fn negate(c: &ASTNode) -> (r: ASTNode)
    ensures
        r@ == spec_negate(c@),
{
    match c {
        ASTNode::BinOp { verb, lhs, rhs } => ASTNode::BinOp {
            verb: BinVerb::Neg(Box::new(verb.clone())),
            lhs: Box::new((&**lhs).clone()),
            rhs: Box::new((&**rhs).clone()),
        },
        _ => ASTNode::UnuaryOp { verb: UniVerb::Not, term: Box::new(c.clone()) },
    }
}

/// The views of a sequence of labels.
pub open spec fn labels_view(s: Seq<usize>) -> Seq<int> {
    s.map_values(|u: usize| u as int)
}

/// The arena, terminal list and root label that building a statement
/// block produces, processing statements from position `i` with the
/// instructions `acc` already accumulated for the current run.
///
/// An assignment or a variable declaration joins the current run. A
/// transition ends the run and records it as a terminal; whatever
/// follows it in the block is unreachable and dropped. A conditional
/// ends the run, builds its if-block as the true successor and, when an
/// else-block exists, builds it as the false successor and drops the
/// rest of the block as unreachable; without an else-block the rest of
/// the block becomes the false (fall-through) successor. Any other
/// statement kind is ignored. Successors are always placed before the
/// run that branches to them, so an edge always leads to a smaller
/// label.
pub open spec fn spec_build_stmts(
    stmts: Seq<NodeView>,
    i: int,
    acc: Seq<NodeView>,
    arena: Seq<ControlFlowView>,
    terms: Seq<int>,
) -> (Seq<ControlFlowView>, Seq<int>, int)
    decreases stmts, stmts.len() - i, 0int,
{
    if i < 0 || i >= stmts.len() {
        let node = ControlFlowView {
            label: arena.len() as int,
            insts: acc,
            cond: None,
            lhs: None,
            rhs: None,
        };
        (arena.push(node), terms, arena.len() as int)
    } else {
        match stmts[i] {
            NodeView::Assignment { .. } => spec_build_stmts(
                stmts,
                i + 1,
                acc.push(stmts[i]),
                arena,
                terms,
            ),
            NodeView::VariableDeclaration { .. } => spec_build_stmts(
                stmts,
                i + 1,
                acc.push(stmts[i]),
                arena,
                terms,
            ),
            NodeView::Transition { .. } => {
                let node = ControlFlowView {
                    label: arena.len() as int,
                    insts: acc.push(stmts[i]),
                    cond: None,
                    lhs: None,
                    rhs: None,
                };
                (arena.push(node), terms.push(arena.len() as int), arena.len() as int)
            },
            NodeView::Conditional { expr, if_blk, else_blk } => {
                let built_if = spec_build_ast(*if_blk, arena, terms);
                match else_blk {
                    Some(e) => {
                        let built_else = spec_build_ast(*e, built_if.0, built_if.1);
                        let node = ControlFlowView {
                            label: built_else.0.len() as int,
                            insts: acc,
                            cond: Some(*expr),
                            lhs: Some(built_if.2),
                            rhs: Some(built_else.2),
                        };
                        (built_else.0.push(node), built_else.1, built_else.0.len() as int)
                    },
                    None => {
                        let built_rest = spec_build_stmts(
                            stmts,
                            i + 1,
                            Seq::empty(),
                            built_if.0,
                            built_if.1,
                        );
                        let node = ControlFlowView {
                            label: built_rest.0.len() as int,
                            insts: acc,
                            cond: Some(*expr),
                            lhs: Some(built_if.2),
                            rhs: Some(built_rest.2),
                        };
                        (built_rest.0.push(node), built_rest.1, built_rest.0.len() as int)
                    },
                }
            },
            _ => spec_build_stmts(stmts, i + 1, acc, arena, terms),
        }
    }
}

/// The arena, terminal list and root label that building one state body
/// produces. A body that is not a block yields one empty run.
pub open spec fn spec_build_ast(
    node: NodeView,
    arena: Seq<ControlFlowView>,
    terms: Seq<int>,
) -> (Seq<ControlFlowView>, Seq<int>, int)
    decreases node, 0int, 1int,
{
    match node {
        NodeView::Block(stmts) => spec_build_stmts(stmts, 0, Seq::empty(), arena, terms),
        _ => {
            let empty_node = ControlFlowView {
                label: arena.len() as int,
                insts: Seq::empty(),
                cond: None,
                lhs: None,
                rhs: None,
            };
            (arena.push(empty_node), terms, arena.len() as int)
        },
    }
}

/// Builds the control-flow graph of one state body into the arena
/// `label2cfg`, recording terminal labels in `transition_labels`, and
/// returns the root label, per [`spec_build_ast`].
fn get_cfg(
    blk: &ASTNode,
    transition_labels: &mut Vec<usize>,
    label2cfg: &mut Vec<ControlFlow>,
) -> (root: usize)
    ensures
        ({
            let built = spec_build_ast(
                blk@,
                arena_view(old(label2cfg)@),
                labels_view(old(transition_labels)@),
            );
            arena_view(final(label2cfg)@) == built.0 && labels_view(final(transition_labels)@)
                == built.1 && root as int == built.2
        }),
    decreases blk, 0int, 1int,
{
    match blk {
        ASTNode::Block(stmts) => build_stmts_run(stmts, 0, Vec::new(), transition_labels, label2cfg),
        _ => {
            let mut cfg = ControlFlow::new();
            let label = label2cfg.len();
            cfg.label = label;
            label2cfg.push(cfg);
            proof {
                lemma_arena_view(label2cfg@);
                lemma_arena_view(old(label2cfg)@);
                assert(arena_view(label2cfg@) =~= arena_view(old(label2cfg)@).push(
                    label2cfg@.last()@,
                ));
                assert(insts_view(Seq::<Inst>::empty()) =~= Seq::<NodeView>::empty());
            }
            label
        },
    }
}

/// Builds the runs of a statement block from position `i`, with the
/// instructions of the current run accumulated in `acc`, per
/// [`spec_build_stmts`].
fn build_stmts_run(
    stmts: &Vec<ASTNode>,
    i: usize,
    acc: Vec<Inst>,
    transition_labels: &mut Vec<usize>,
    label2cfg: &mut Vec<ControlFlow>,
) -> (root: usize)
    ensures
        ({
            let built = spec_build_stmts(
                crate::ast::nodes_view(stmts@),
                i as int,
                insts_view(acc@),
                arena_view(old(label2cfg)@),
                labels_view(old(transition_labels)@),
            );
            arena_view(final(label2cfg)@) == built.0 && labels_view(final(transition_labels)@)
                == built.1 && root as int == built.2
        }),
    decreases stmts, stmts@.len() - i, 0int,
{
    proof {
        crate::ast::lemma_nodes_view(stmts@);
    }
    if i >= stmts.len() {
        let mut cfg = ControlFlow::new();
        let label = label2cfg.len();
        cfg.label = label;
        cfg.insts = acc;
        let ghost pre = label2cfg@;
        label2cfg.push(cfg);
        proof {
            lemma_arena_view(pre);
            lemma_arena_view(label2cfg@);
            assert(label2cfg@.drop_last() =~= pre);
            assert(arena_view(label2cfg@) =~= arena_view(pre).push(label2cfg@.last()@));
        }
        label
    } else {
        match &stmts[i] {
            ASTNode::Assignment { .. } => {
                let mut acc = acc;
                let ghost acc_old = acc@;
                acc.push(Inst::Stmt(stmts[i].clone()));
                proof {
                    lemma_insts_view(acc@);
                    lemma_insts_view(acc_old);
                    assert(insts_view(acc@) =~= insts_view(acc_old).push(
                        crate::ast::nodes_view(stmts@)[i as int],
                    ));
                }
                build_stmts_run(stmts, i + 1, acc, transition_labels, label2cfg)
            },
            ASTNode::VariableDeclaration { .. } => {
                let mut acc = acc;
                let ghost acc_old = acc@;
                acc.push(Inst::Stmt(stmts[i].clone()));
                proof {
                    lemma_insts_view(acc@);
                    lemma_insts_view(acc_old);
                    assert(insts_view(acc@) =~= insts_view(acc_old).push(
                        crate::ast::nodes_view(stmts@)[i as int],
                    ));
                }
                build_stmts_run(stmts, i + 1, acc, transition_labels, label2cfg)
            },
            ASTNode::Transition { .. } => {
                let mut acc = acc;
                let ghost acc_old = acc@;
                acc.push(Inst::Stmt(stmts[i].clone()));
                proof {
                    lemma_insts_view(acc@);
                    lemma_insts_view(acc_old);
                    assert(insts_view(acc@) =~= insts_view(acc_old).push(
                        crate::ast::nodes_view(stmts@)[i as int],
                    ));
                }
                let mut cfg = ControlFlow::new();
                let label = label2cfg.len();
                cfg.label = label;
                cfg.insts = acc;
                let ghost pre = label2cfg@;
                let ghost pre_terms = transition_labels@;
                label2cfg.push(cfg);
                transition_labels.push(label);
                proof {
                    lemma_arena_view(pre);
                    lemma_arena_view(label2cfg@);
                    assert(label2cfg@.drop_last() =~= pre);
                    assert(arena_view(label2cfg@) =~= arena_view(pre).push(label2cfg@.last()@));
                    assert(labels_view(transition_labels@) =~= labels_view(pre_terms).push(
                        label as int,
                    ));
                }
                label
            },
            ASTNode::Conditional { expr, if_blk, else_blk } => {
                let lhs_label = get_cfg(&**if_blk, transition_labels, label2cfg);
                let rhs_label: usize = match else_blk {
                    Some(e) => get_cfg(&**e, transition_labels, label2cfg),
                    None => build_stmts_run(stmts, i + 1, Vec::new(), transition_labels, label2cfg),
                };
                let mut cfg = ControlFlow::new();
                let label = label2cfg.len();
                cfg.label = label;
                cfg.insts = acc;
                cfg.add_cond((&**expr).clone());
                cfg.add_next_lhs(lhs_label);
                cfg.add_next_rhs(rhs_label);
                let ghost pre = label2cfg@;
                label2cfg.push(cfg);
                proof {
                    lemma_arena_view(pre);
                    lemma_arena_view(label2cfg@);
                    assert(label2cfg@.drop_last() =~= pre);
                    assert(arena_view(label2cfg@) =~= arena_view(pre).push(label2cfg@.last()@));
                }
                label
            },
            _ => build_stmts_run(stmts, i + 1, acc, transition_labels, label2cfg),
        }
    }
}

/// The instructions of a run that are not transitions, in order: the
/// actions the run contributes to a path.
pub open spec fn spec_non_transitions(insts: Seq<NodeView>) -> Seq<NodeView>
    decreases insts,
{
    if insts.len() == 0 {
        Seq::empty()
    } else {
        spec_non_transitions(insts.drop_last()) + (if insts.last() matches NodeView::Transition {
            ..
        } {
            Seq::empty()
        } else {
            seq![insts.last()]
        })
    }
}

/// An empty list of guards or actions is recorded as nothing at all.
pub open spec fn spec_opt_seq(s: Seq<NodeView>) -> Option<Seq<NodeView>> {
    if s.len() == 0 {
        None
    } else {
        Some(s)
    }
}

/// The transitions a finished path emits at its terminal run, whose
/// last instruction must be a transition statement. A `transition`
/// keyword with a plain identifier target emits one entry carrying the
/// path's guards and actions; `complete` and `reset` end the path
/// without an edge; any other keyword, and any target that is not a
/// plain identifier, is a `MalformedTransition` error.
pub open spec fn spec_terminal(
    node: ControlFlowView,
    guards: Seq<NodeView>,
    actions: Seq<NodeView>,
) -> Result<Seq<TransitionView>, CompileError> {
    if node.insts.len() > 0 && (node.insts.last() matches NodeView::Transition { .. }) {
        match node.insts.last() {
            NodeView::Transition { action, ident } => {
                if action == "transition"@ {
                    match *ident {
                        NodeView::Ident(s) => Ok(
                            seq![
                                TransitionView {
                                    target: s,
                                    guards: spec_opt_seq(guards),
                                    actions: spec_opt_seq(actions),
                                },
                            ],
                        ),
                        _ => Err(CompileError::MalformedTransition),
                    }
                } else if action == "complete"@ || action == "reset"@ {
                    Ok(Seq::empty())
                } else {
                    Err(CompileError::MalformedTransition)
                }
            },
            _ => Err(CompileError::MalformedTransition),
        }
    } else {
        Err(CompileError::MalformedTransition)
    }
}

/// The transitions that the depth-first search finds for one terminal,
/// walking from `cur` with the guards and actions accumulated along the
/// path into `cur`.
///
/// The run's own non-transition instructions join the actions first.
/// Reaching the terminal finishes the path. At a branch the search
/// descends into the true successor under the branch condition, then
/// into the false successor under its negation. Successors were built
/// before the branching run, so an edge that does not lead to a smaller
/// label would revisit a run; such an edge is refused, which is the
/// cycle guard.
pub open spec fn spec_dfs(
    arena: Seq<ControlFlowView>,
    target: int,
    cur: int,
    guards: Seq<NodeView>,
    actions: Seq<NodeView>,
) -> Result<Seq<TransitionView>, CompileError>
    decreases cur,
{
    if cur < 0 || cur >= arena.len() {
        Ok(Seq::empty())
    } else {
        let node = arena[cur];
        let actions2 = actions + spec_non_transitions(node.insts);
        if cur == target {
            spec_terminal(node, guards, actions2)
        } else {
            match (node.cond, node.lhs, node.rhs) {
                (Some(c), Some(l), Some(r)) => {
                    if 0 <= l < cur && 0 <= r < cur {
                        match spec_dfs(arena, target, l, guards.push(c), actions2) {
                            Err(e) => Err(e),
                            Ok(a) => match spec_dfs(
                                arena,
                                target,
                                r,
                                guards.push(spec_negate(c)),
                                actions2,
                            ) {
                                Err(e) => Err(e),
                                Ok(b) => Ok(a + b),
                            },
                        }
                    } else {
                        Ok(Seq::empty())
                    }
                },
                _ => Ok(Seq::empty()),
            }
        }
    }
}

/// The transition list of a state: for each terminal in order, every
/// path from the root to it, each path one entry.
pub open spec fn spec_collect(
    arena: Seq<ControlFlowView>,
    root: int,
    terms: Seq<int>,
) -> Result<Seq<TransitionView>, CompileError>
    decreases terms.len(),
{
    if terms.len() == 0 {
        Ok(Seq::empty())
    } else {
        match spec_collect(arena, root, terms.drop_last()) {
            Err(e) => Err(e),
            Ok(acc) => match spec_dfs(arena, terms.last(), root, Seq::empty(), Seq::empty()) {
                Err(e) => Err(e),
                Ok(ts) => Ok(acc + ts),
            },
        }
    }
}

/// Walks the graph for one terminal, appending each finished path's
/// transition to `out`, per [`spec_dfs`].
#[verifier::rlimit(100)]
#[verifier::loop_isolation(false)]
fn dfs(
    target: usize,
    cur: usize,
    label2cfg: &Vec<ControlFlow>,
    guards: Vec<ASTNode>,
    actions: Vec<ASTNode>,
    out: &mut Vec<Transition>,
) -> (r: Result<(), CompileError>)
    requires
        cur < label2cfg@.len(),
    ensures
        ({
            let found = spec_dfs(
                arena_view(label2cfg@),
                target as int,
                cur as int,
                crate::ast::nodes_view(guards@),
                crate::ast::nodes_view(actions@),
            );
            match found {
                Ok(ts) => r is Ok && transitions_view(final(out)@) == transitions_view(
                    old(out)@,
                ) + ts,
                Err(e) => r matches Err(e2) && e2 == e,
            }
        }),
    decreases cur,
{
    proof {
        lemma_arena_view(label2cfg@);
        crate::ast::lemma_nodes_view(guards@);
    }
    let ghost guards_in = crate::ast::nodes_view(guards@);
    let node = &label2cfg[cur];
    let mut actions = actions;
    let ninsts = node.insts.len();
    let mut j: usize = 0;
    proof {
        lemma_insts_view(node.insts@);
        crate::ast::lemma_nodes_view(actions@);
        assert(node.insts@.subrange(0, 0) =~= Seq::<Inst>::empty());
        assert(crate::ast::nodes_view(actions@) + spec_non_transitions(
            insts_view(node.insts@.subrange(0, 0)),
        ) =~= crate::ast::nodes_view(actions@));
    }
    let ghost actions_in = crate::ast::nodes_view(actions@);
    while j < ninsts
        invariant
            j <= ninsts,
            ninsts == node.insts@.len(),
            crate::ast::nodes_view(actions@) == actions_in + spec_non_transitions(
                insts_view(node.insts@.subrange(0, j as int)),
            ),
        decreases ninsts - j,
    {
        let ghost acts_pre = actions@;
        match &node.insts[j] {
            Inst::Stmt(stmt) => {
                if let ASTNode::Transition { .. } = stmt {
                } else {
                    actions.push(stmt.clone());
                }
            },
        }
        proof {
            crate::ast::lemma_nodes_view(actions@);
            crate::ast::lemma_nodes_view(acts_pre);
            lemma_insts_view(node.insts@.subrange(0, j as int));
            lemma_insts_view(node.insts@.subrange(0, j + 1));
            assert(node.insts@.subrange(0, j + 1).drop_last() =~= node.insts@.subrange(
                0,
                j as int,
            ));
            assert(insts_view(node.insts@.subrange(0, j + 1)).drop_last() =~= insts_view(
                node.insts@.subrange(0, j as int),
            ));
            assert(insts_view(node.insts@.subrange(0, j + 1)).last() == node.insts@[j as int]@);
            let s = insts_view(node.insts@.subrange(0, j + 1));
            let s0 = insts_view(node.insts@.subrange(0, j as int));
            assert(s.len() == j + 1);
            assert(s.drop_last() == s0);
            if node.insts@[j as int]@ matches NodeView::Transition { .. } {
                assert(spec_non_transitions(s) == spec_non_transitions(s0)
                    + Seq::<NodeView>::empty());
                assert(spec_non_transitions(s) =~= spec_non_transitions(s0));
                assert(crate::ast::nodes_view(actions@) =~= actions_in + spec_non_transitions(s));
            } else {
                assert(spec_non_transitions(s) == spec_non_transitions(s0) + seq![
                    node.insts@[j as int]@,
                ]);
                assert(actions@.len() == acts_pre.len() + 1);
                assert(actions@.last()@ == node.insts@[j as int]@);
                assert(crate::ast::nodes_view(actions@).last() == node.insts@[j as int]@);
                assert(crate::ast::nodes_view(actions@).len() == (actions_in
                    + spec_non_transitions(s)).len());
                assert forall|k: int| 0 <= k < crate::ast::nodes_view(actions@).len() implies
                    crate::ast::nodes_view(actions@)[k] == (actions_in + spec_non_transitions(
                    s,
                ))[k] by {
                    assert(crate::ast::nodes_view(actions@)[k] == actions@[k]@);
                    if k < acts_pre.len() {
                        assert(actions@[k] == acts_pre[k]);
                        assert(crate::ast::nodes_view(acts_pre)[k] == acts_pre[k]@);
                        assert(crate::ast::nodes_view(acts_pre)[k] == (actions_in
                            + spec_non_transitions(s0))[k]);
                        assert((actions_in + spec_non_transitions(s))[k] == (actions_in
                            + spec_non_transitions(s0))[k]);
                    } else {
                        assert(k == acts_pre.len());
                        assert((actions_in + spec_non_transitions(s))[k] == node.insts@[j as int]@);
                    }
                }
                assert(crate::ast::nodes_view(actions@) =~= actions_in + spec_non_transitions(s));
            }
        }
        j = j + 1;
    }
    proof {
        lemma_arena_view(label2cfg@);
        lemma_insts_view(node.insts@);
        crate::ast::lemma_nodes_view(guards@);
        assert(node.insts@.subrange(0, ninsts as int) =~= node.insts@);
        assert(crate::ast::nodes_view(actions@) == actions_in + spec_non_transitions(
            insts_view(node.insts@),
        ));
    }
    let ghost actions_full = crate::ast::nodes_view(actions@);
    if cur == target {
        if node.insts.len() == 0 {
            return Err(CompileError::MalformedTransition);
        }
        match &node.insts[node.insts.len() - 1] {
            Inst::Stmt(ASTNode::Transition { action, ident }) => {
                if str_eq(action.as_str(), "transition") {
                    match &**ident {
                        ASTNode::Ident(s) => {
                            let mut tran = Transition::new(s.clone());
                            let ghost guards_v = guards_in;
                            let nguards = guards.len();
                            let mut k: usize = 0;
                            while k < nguards
                                invariant
                                    k <= nguards,
                                    nguards == guards@.len(),
                                    guards_v == crate::ast::nodes_view(guards@),
                                    guards_v.len() == nguards,
                                    forall|m: int|
                                        0 <= m < nguards ==> guards_v[m] == #[trigger] guards@[m]@,
                                    tran@.target == s@,
                                    tran@.actions is None,
                                    tran@.guards == (if k == 0 {
                                        Option::<Seq<NodeView>>::None
                                    } else {
                                        Some(guards_v.subrange(0, k as int))
                                    }),
                                decreases nguards - k,
                            {
                                tran.insert_guard(guards[k].clone());
                                proof {
                                    if k > 0 {
                                        assert(guards_v.subrange(0, k as int).push(
                                            guards_v[k as int],
                                        ) =~= guards_v.subrange(0, k + 1));
                                    } else {
                                        assert(seq![guards_v[0]] =~= guards_v.subrange(0, 1));
                                    }
                                }
                                k = k + 1;
                            }
                            let ghost actions_v = crate::ast::nodes_view(actions@);
                            proof {
                                lemma_arena_view(label2cfg@);
                                lemma_insts_view(node.insts@);
                                crate::ast::lemma_nodes_view(actions@);
                            }
                            if actions.len() > 0 {
                                tran.actions = Some(actions);
                            }
                            proof {
                                if nguards > 0 {
                                    assert(guards_v.subrange(0, nguards as int) =~= guards_v);
                                }
                                assert(tran@ =~= (TransitionView {
                                    target: s@,
                                    guards: spec_opt_seq(guards_v),
                                    actions: spec_opt_seq(actions_v),
                                }));
                                assert(actions_v == actions_full);
                                let tnode = arena_view(label2cfg@)[cur as int];
                                assert(tnode == node@);
                                assert(tnode.insts == insts_view(node.insts@));
                                assert(tnode.insts.len() == ninsts);
                                assert(tnode.insts.last() == node.insts@[ninsts - 1]@);
                                assert(tnode.insts.last() matches NodeView::Transition { .. });
                                assert(action@ == "transition"@);
                                assert(actions_full == actions_in + spec_non_transitions(
                                    tnode.insts,
                                ));
                                assert((**ident)@ == NodeView::Ident(s@));
                                assert(tnode.insts.last() == (NodeView::Transition {
                                    action: action@,
                                    ident: Box::new((**ident)@),
                                }));
                                assert(spec_terminal(tnode, guards_in, actions_full)
                                    == Ok::<Seq<TransitionView>, CompileError>(
                                    seq![
                                        (TransitionView {
                                            target: s@,
                                            guards: spec_opt_seq(guards_v),
                                            actions: spec_opt_seq(actions_v),
                                        }),
                                    ],
                                ));
                                assert(spec_dfs(
                                    arena_view(label2cfg@),
                                    target as int,
                                    cur as int,
                                    guards_in,
                                    actions_in,
                                ) == spec_terminal(tnode, guards_in, actions_full));
                            }
                            let ghost pre_out = out@;
                            out.push(tran);
                            proof {
                                lemma_transitions_view(pre_out);
                                lemma_transitions_view(out@);
                                assert(out@.drop_last() =~= pre_out);
                                assert(transitions_view(out@) =~= transitions_view(pre_out).push(
                                    out@.last()@,
                                ));
                                assert(transitions_view(out@) =~= transitions_view(pre_out) + seq![
                                    (TransitionView {
                                        target: s@,
                                        guards: spec_opt_seq(guards_v),
                                        actions: spec_opt_seq(actions_v),
                                    }),
                                ]);
                            }
                            Ok(())
                        },
                        _ => Err(CompileError::MalformedTransition),
                    }
                } else if str_eq(action.as_str(), "complete") || str_eq(
                    action.as_str(),
                    "reset",
                ) {
                    proof {
                        assert(transitions_view(out@) =~= transitions_view(out@)
                            + Seq::<TransitionView>::empty());
                    }
                    Ok(())
                } else {
                    Err(CompileError::MalformedTransition)
                }
            },
            _ => Err(CompileError::MalformedTransition),
        }
    } else {
        match (&node.cond, node.lhs, node.rhs) {
            (Some(c), Some(l), Some(rr)) => {
                if l < cur && rr < cur {
                    let ghost arena_v = arena_view(label2cfg@);
                    let ghost cond_v = c@;
                    let mut g1 = crate::ast::clone_nodes(&guards);
                    let ghost g1_pre = g1@;
                    g1.push(c.clone());
                    let a1 = crate::ast::clone_nodes(&actions);
                    proof {
                        crate::ast::lemma_nodes_view(g1@);
                        crate::ast::lemma_nodes_view(g1_pre);
                        assert(g1@.drop_last() =~= g1_pre);
                        assert(crate::ast::nodes_view(g1@) =~= guards_in.push(cond_v));
                        assert(crate::ast::nodes_view(a1@) == actions_full);
                    }
                    let r1 = dfs(target, l, label2cfg, g1, a1, out);
                    proof {
                        assert(spec_dfs(arena_v, target as int, cur as int, guards_in, actions_in)
                            == (match spec_dfs(
                            arena_v,
                            target as int,
                            l as int,
                            guards_in.push(cond_v),
                            actions_full,
                        ) {
                            Err(e) => Err(e),
                            Ok(a) => match spec_dfs(
                                arena_v,
                                target as int,
                                rr as int,
                                guards_in.push(spec_negate(cond_v)),
                                actions_full,
                            ) {
                                Err(e) => Err(e),
                                Ok(b) => Ok(a + b),
                            },
                        }));
                    }
                    if let Err(e) = r1 {
                        return Err(e);
                    }
                    let mut g2 = guards;
                    let neg = negate(c);
                    let ghost g2_pre = g2@;
                    g2.push(neg);
                    proof {
                        crate::ast::lemma_nodes_view(g2@);
                        crate::ast::lemma_nodes_view(g2_pre);
                        assert(g2@.drop_last() =~= g2_pre);
                        assert(crate::ast::nodes_view(g2@) =~= guards_in.push(spec_negate(cond_v)));
                    }
                    let r2 = dfs(target, rr, label2cfg, g2, actions, out);
                    if let Err(e) = r2 {
                        return Err(e);
                    }
                    proof {
                        let dl = spec_dfs(
                            arena_v,
                            target as int,
                            l as int,
                            guards_in.push(cond_v),
                            actions_full,
                        );
                        let dr = spec_dfs(
                            arena_v,
                            target as int,
                            rr as int,
                            guards_in.push(spec_negate(cond_v)),
                            actions_full,
                        );
                        assert(transitions_view(out@) =~= transitions_view(old(out)@) + (dl->Ok_0
                            + dr->Ok_0));
                    }
                    Ok(())
                } else {
                    proof {
                        assert(transitions_view(out@) =~= transitions_view(out@)
                            + Seq::<TransitionView>::empty());
                    }
                    Ok(())
                }
            },
            _ => {
                proof {
                    assert(transitions_view(out@) =~= transitions_view(out@)
                        + Seq::<TransitionView>::empty());
                }
                Ok(())
            },
        }
    }
}

/// Once a prefix of the terminal list yields an error, the whole list
/// yields the same error.
proof fn lemma_collect_err(arena: Seq<ControlFlowView>, root: int, terms: Seq<int>, i: int)
    requires
        0 <= i <= terms.len(),
        spec_collect(arena, root, terms.subrange(0, i)) is Err,
    ensures
        spec_collect(arena, root, terms) == spec_collect(arena, root, terms.subrange(0, i)),
    decreases terms.len() - i,
{
    if i < terms.len() {
        assert(terms.subrange(0, i + 1).drop_last() =~= terms.subrange(0, i));
        lemma_collect_err(arena, root, terms, i + 1);
    } else {
        assert(terms.subrange(0, terms.len() as int) =~= terms);
    }
}

/// Collects the transition list of one state: for each terminal label
/// in order, one entry per path from the root to it, per
/// [`spec_collect`].
fn collect_transitions(
    root: usize,
    label2cfg: &Vec<ControlFlow>,
    transition_labels: &Vec<usize>,
) -> (r: Result<Transitions, CompileError>)
    requires
        root < label2cfg@.len(),
    ensures
        ({
            let found = spec_collect(
                arena_view(label2cfg@),
                root as int,
                labels_view(transition_labels@),
            );
            match found {
                Ok(ts) => r matches Ok(t) && t@ == ts,
                Err(e) => r matches Err(e2) && e2 == e,
            }
        }),
{
    let mut transitions = Transitions::new();
    let n = transition_labels.len();
    let mut i: usize = 0;
    proof {
        assert(labels_view(transition_labels@).subrange(0, 0) =~= Seq::<int>::empty());
    }
    while i < n
        invariant
            i <= n,
            n == transition_labels@.len(),
            root < label2cfg@.len(),
            spec_collect(
                arena_view(label2cfg@),
                root as int,
                labels_view(transition_labels@).subrange(0, i as int),
            ) == Ok::<Seq<TransitionView>, CompileError>(transitions@),
        decreases n - i,
    {
        let target = transition_labels[i];
        let ghost pre = transitions@;
        let r = dfs(target, root, label2cfg, Vec::new(), Vec::new(), &mut transitions.trans);
        proof {
            crate::ast::lemma_nodes_view(Seq::<ASTNode>::empty());
            assert(crate::ast::nodes_view(Seq::<ASTNode>::empty()) =~= Seq::<NodeView>::empty());
            assert(labels_view(transition_labels@).subrange(0, i + 1).drop_last() =~= labels_view(
                transition_labels@,
            ).subrange(0, i as int));
            assert(labels_view(transition_labels@).subrange(0, i + 1).last() == target as int);
        }
        if let Err(e) = r {
            proof {
                lemma_collect_err(
                    arena_view(label2cfg@),
                    root as int,
                    labels_view(transition_labels@),
                    i + 1,
                );
            }
            return Err(e);
        }
        i = i + 1;
    }
    proof {
        assert(labels_view(transition_labels@).subrange(0, n as int) =~= labels_view(
            transition_labels@,
        ));
    }
    Ok(transitions)
}

/// The structure kind for a declared kind name. An unknown name is
/// retained as `Unrecognized`.
pub open spec fn spec_classify(s: Seq<char>) -> Structure {
    if s == "controller_entry"@ {
        Structure::ControllerEntry
    } else if s == "controller"@ {
        Structure::Controller
    } else if s == "state_queue"@ {
        Structure::StateQueue
    } else if s == "state"@ {
        Structure::State
    } else if s == "controller_control_flow"@ {
        Structure::ControllerControlFlow
    } else {
        Structure::Unrecognized
    }
}

/// Classifies a declared kind name, per [`spec_classify`].
fn classify(s_type: &String) -> (r: Structure)
    ensures
        r == spec_classify(s_type@),
{
    if str_eq(s_type.as_str(), "controller_entry") {
        Structure::ControllerEntry
    } else if str_eq(s_type.as_str(), "controller") {
        Structure::Controller
    } else if str_eq(s_type.as_str(), "state_queue") {
        Structure::StateQueue
    } else if str_eq(s_type.as_str(), "state") {
        Structure::State
    } else if str_eq(s_type.as_str(), "controller_control_flow") {
        Structure::ControllerControlFlow
    } else {
        Structure::Unrecognized
    }
}

/// The direct declaration instructions of the statements before
/// position `i`: every assignment and variable declaration, in order.
pub open spec fn spec_direct_insts(stmts: Seq<NodeView>, i: int) -> Seq<NodeView>
    decreases i,
{
    if i <= 0 || i > stmts.len() {
        Seq::empty()
    } else {
        spec_direct_insts(stmts, i - 1) + (match stmts[i - 1] {
            NodeView::Assignment { .. } => seq![stmts[i - 1]],
            NodeView::VariableDeclaration { .. } => seq![stmts[i - 1]],
            _ => Seq::empty(),
        })
    }
}

/// Building a body always places its root last in the arena, after at
/// least one new node.
proof fn lemma_build_ast_range(node: NodeView, arena: Seq<ControlFlowView>, terms: Seq<int>)
    ensures
        ({
            let b = spec_build_ast(node, arena, terms);
            b.0.len() > arena.len() && b.2 == b.0.len() - 1
        }),
    decreases node, 0int, 1int,
{
    match node {
        NodeView::Block(stmts) => {
            lemma_build_stmts_range(stmts, 0, Seq::empty(), arena, terms);
        },
        _ => {},
    }
}

/// Building from a statement position always places the run it closes
/// last in the arena, after at least one new node.
proof fn lemma_build_stmts_range(
    stmts: Seq<NodeView>,
    i: int,
    acc: Seq<NodeView>,
    arena: Seq<ControlFlowView>,
    terms: Seq<int>,
)
    ensures
        ({
            let b = spec_build_stmts(stmts, i, acc, arena, terms);
            b.0.len() > arena.len() && b.2 == b.0.len() - 1
        }),
    decreases stmts, stmts.len() - i, 0int,
{
    if i < 0 || i >= stmts.len() {
    } else {
        match stmts[i] {
            NodeView::Assignment { .. } => {
                lemma_build_stmts_range(stmts, i + 1, acc.push(stmts[i]), arena, terms);
            },
            NodeView::VariableDeclaration { .. } => {
                lemma_build_stmts_range(stmts, i + 1, acc.push(stmts[i]), arena, terms);
            },
            NodeView::Transition { .. } => {},
            NodeView::Conditional { expr, if_blk, else_blk } => {
                lemma_build_ast_range(*if_blk, arena, terms);
                let built_if = spec_build_ast(*if_blk, arena, terms);
                match else_blk {
                    Some(e) => {
                        lemma_build_ast_range(*e, built_if.0, built_if.1);
                    },
                    None => {
                        lemma_build_stmts_range(stmts, i + 1, Seq::empty(), built_if.0, built_if.1);
                    },
                }
            },
            _ => {
                lemma_build_stmts_range(stmts, i + 1, acc, arena, terms);
            },
        }
    }
}

/// The states that one structure declaration contributes.
///
/// A body that is not a block contributes nothing. A block contributes
/// one state holding the declaration's scope and its direct
/// instructions; a state-kind block additionally carries the transition
/// list that graph construction and path collection produce for it.
pub open spec fn spec_convert_struct(s_type: Seq<char>, name: Seq<char>, node: NodeView) -> Result<
    Seq<StateView>,
    CompileError,
> {
    let structure = spec_classify(s_type);
    match node {
        NodeView::Block(stmts) => {
            let insts = spec_direct_insts(stmts, stmts.len() as int);
            let scope = ScopeView { label: structure, name };
            if structure == Structure::State {
                let built = spec_build_ast(NodeView::Block(stmts), Seq::empty(), Seq::empty());
                match spec_collect(built.0, built.2, built.1) {
                    Err(e) => Err(e),
                    Ok(trans) => Ok(seq![StateView { scope, insts, next: trans }]),
                }
            } else {
                Ok(seq![StateView { scope, insts, next: Seq::empty() }])
            }
        },
        _ => Ok(Seq::empty()),
    }
}

/// Converts one structure declaration and appends the state it
/// contributes, per [`spec_convert_struct`]. On an error the machine is
/// left unchanged.
#[verifier::loop_isolation(false)]
fn convert_struct(s_type: &String, name: &String, node: &ASTNode, cfgs: &mut StateMachine) -> (r:
    Result<(), CompileError>)
    ensures
        (match spec_convert_struct(s_type@, name@, node@) {
            Ok(sts) => r is Ok && final(cfgs)@ == (StateMachineView {
                cfgs: old(cfgs)@.cfgs + sts,
                ..old(cfgs)@
            }),
            Err(e) => r matches Err(e2) && e2 == e && final(cfgs)@ == old(cfgs)@,
        }),
{
    let structure = classify(s_type);
    let scope = Scope::from(structure, name.clone());
    if let ASTNode::Block(blk) = node {
        proof {
            crate::ast::lemma_nodes_view(blk@);
        }
        let transitions: Transitions = if structure == Structure::State {
            let mut transition_labels: Vec<usize> = Vec::new();
            let mut label2cfg: Vec<ControlFlow> = Vec::new();
            let root = get_cfg(node, &mut transition_labels, &mut label2cfg);
            proof {
                lemma_build_ast_range(node@, Seq::empty(), Seq::empty());
                assert(arena_view(Seq::<ControlFlow>::empty()) =~= Seq::<ControlFlowView>::empty());
                assert(labels_view(Seq::<usize>::empty()) =~= Seq::<int>::empty());
                lemma_arena_view(label2cfg@);
            }
            match collect_transitions(root, &label2cfg, &transition_labels) {
                Err(e) => {
                    return Err(e);
                },
                Ok(t) => t,
            }
        } else {
            Transitions::new()
        };
        let mut cfg = State::new(scope.clone());
        let n = blk.len();
        let mut i: usize = 0;
        while i < n
            invariant
                i <= n,
                n == blk@.len(),
                cfg@.scope == scope@,
                cfg@.next == Seq::<TransitionView>::empty(),
                cfg@.insts == spec_direct_insts(crate::ast::nodes_view(blk@), i as int),
            decreases n - i,
        {
            match &blk[i] {
                ASTNode::Assignment { .. } => {
                    cfg.insert_inst(Inst::Stmt(blk[i].clone()));
                },
                ASTNode::VariableDeclaration { .. } => {
                    cfg.insert_inst(Inst::Stmt(blk[i].clone()));
                },
                _ => {},
            }
            proof {
                assert(spec_direct_insts(crate::ast::nodes_view(blk@), i + 1)
                    =~= cfg@.insts);
            }
            i = i + 1;
        }
        cfg.next = transitions;
        cfgs.insert_cfg(scope, cfg);
        Ok(())
    } else {
        proof {
            assert(old(cfgs)@.cfgs + Seq::<StateView>::empty() =~= old(cfgs)@.cfgs);
            assert(final(cfgs)@ =~= (StateMachineView {
                cfgs: old(cfgs)@.cfgs + Seq::<StateView>::empty(),
                ..old(cfgs)@
            }));
        }
        Ok(())
    }
}

/// The states that the declarations before position `i` contribute, in
/// order. A declaration that does not declare a structure contributes
/// nothing and is ignored.
pub open spec fn spec_convert_decls(decls: Seq<NodeView>, i: int) -> Result<
    Seq<StateView>,
    CompileError,
>
    decreases i,
{
    if i <= 0 || i > decls.len() {
        Ok(Seq::empty())
    } else {
        match spec_convert_decls(decls, i - 1) {
            Err(e) => Err(e),
            Ok(states) => match decls[i - 1] {
                NodeView::Declaration(inner) => match *inner {
                    NodeView::StructureDeclaration { s_type, name, statement } => match
                        spec_convert_struct(s_type, name, *statement) {
                        Err(e) => Err(e),
                        Ok(new_states) => Ok(states + new_states),
                    },
                    _ => Ok(states),
                },
                _ => Ok(states),
            },
        }
    }
}

/// Once a prefix of the declarations yields an error, the whole list
/// yields the same error.
proof fn lemma_convert_decls_err(decls: Seq<NodeView>, i: int)
    requires
        0 <= i <= decls.len(),
        spec_convert_decls(decls, i) is Err,
    ensures
        spec_convert_decls(decls, decls.len() as int) == spec_convert_decls(decls, i),
    decreases decls.len() - i,
{
    if i < decls.len() {
        lemma_convert_decls_err(decls, i + 1);
    }
}

/// The entry name that the instructions before position `i` resolve:
/// the last assignment whose trimmed name is `init_entry`, whose right
/// side must be a qualified name with at least one identifier
/// component, else the resolution is a `MissingEntry` error.
pub open spec fn spec_resolve_entry(insts: Seq<NodeView>, i: int) -> Result<
    Option<Seq<char>>,
    CompileError,
>
    decreases i,
{
    if i <= 0 || i > insts.len() {
        Ok(None)
    } else {
        match spec_resolve_entry(insts, i - 1) {
            Err(e) => Err(e),
            Ok(cur) => match insts[i - 1] {
                NodeView::Assignment { name, expr } => {
                    if spec_trim(name) == "init_entry"@ {
                        match *expr {
                            NodeView::QualifiedName { names } => {
                                if names.len() >= 1 {
                                    match names[0] {
                                        NodeView::Ident(s) => Ok(Some(s)),
                                        _ => Err(CompileError::MissingEntry),
                                    }
                                } else {
                                    Err(CompileError::MissingEntry)
                                }
                            },
                            _ => Err(CompileError::MissingEntry),
                        }
                    } else {
                        Ok(cur)
                    }
                },
                _ => Ok(cur),
            },
        }
    }
}

/// Once a prefix of the instructions fails to resolve, the whole list
/// fails the same way.
proof fn lemma_resolve_entry_err(insts: Seq<NodeView>, i: int)
    requires
        0 <= i <= insts.len(),
        spec_resolve_entry(insts, i) is Err,
    ensures
        spec_resolve_entry(insts, insts.len() as int) == spec_resolve_entry(insts, i),
    decreases insts.len() - i,
{
    if i < insts.len() {
        lemma_resolve_entry_err(insts, i + 1);
    }
}

/// The machine that a whole program converts to.
///
/// Every structure declaration becomes a state. The machine takes its
/// name from the first controller-entry structure and its entry state
/// from that structure's `init_entry` assignment; a program without a
/// controller entry, or whose controller entry resolves no entry name,
/// is a `MissingEntry` error.
pub open spec fn spec_convert_program(node: NodeView) -> Result<StateMachineView, CompileError> {
    let states_r = (match node {
        NodeView::Top(decls) => spec_convert_decls(decls, decls.len() as int),
        _ => Ok(Seq::empty()),
    });
    match states_r {
        Err(e) => Err(e),
        Ok(states) => match StateMachine::spec_find_structure(
            states,
            Structure::ControllerEntry,
            0,
        ) {
            None => Err(CompileError::MissingEntry),
            Some(idx) => match spec_resolve_entry(
                states[idx].insts,
                states[idx].insts.len() as int,
            ) {
                Err(e) => Err(e),
                Ok(None) => Err(CompileError::MissingEntry),
                Ok(Some(entry)) => Ok(
                    StateMachineView { fsm_name: states[idx].scope.name, entry, cfgs: states },
                ),
            },
        },
    }
}

/// Whether an instruction is an assignment whose trimmed name is
/// `init_entry`.
pub open spec fn spec_is_init_entry(n: NodeView) -> bool {
    match n {
        NodeView::Assignment { name, .. } => spec_trim(name) == "init_entry"@,
        _ => false,
    }
}

/// Instructions without an `init_entry` assignment resolve no entry.
proof fn lemma_resolve_entry_none(insts: Seq<NodeView>, i: int)
    requires
        0 <= i <= insts.len(),
        forall|j: int| 0 <= j < i ==> !spec_is_init_entry(#[trigger] insts[j]),
    ensures
        spec_resolve_entry(insts, i) == Ok::<Option<Seq<char>>, CompileError>(None),
    decreases i,
{
    if i > 0 {
        lemma_resolve_entry_none(insts, i - 1);
    }
}

/// An instruction list whose one `init_entry` assignment carries a
/// qualified name resolves the entry to that name's first component.
pub proof fn lemma_single_entry_assignment_resolves(
    insts: Seq<NodeView>,
    k: int,
    nm: Seq<char>,
    names: Seq<NodeView>,
    s: Seq<char>,
)
    requires
        0 <= k < insts.len(),
        insts[k] == (NodeView::Assignment {
            name: nm,
            expr: Box::new(NodeView::QualifiedName { names }),
        }),
        spec_trim(nm) == "init_entry"@,
        names.len() >= 1,
        names[0] == NodeView::Ident(s),
        forall|j: int| 0 <= j < insts.len() && j != k ==> !spec_is_init_entry(#[trigger] insts[j]),
    ensures
        spec_resolve_entry(insts, insts.len() as int) == Ok::<Option<Seq<char>>, CompileError>(
            Some(s),
        ),
{
    lemma_resolve_entry_none(insts, k);
    assert(spec_resolve_entry(insts, k + 1) == Ok::<Option<Seq<char>>, CompileError>(Some(s)));
    lemma_single_entry_assignment_from(insts, k, s, k + 1);
}

/// Past the resolving assignment, instructions that are no `init_entry`
/// assignment keep the resolved entry.
proof fn lemma_single_entry_assignment_from(insts: Seq<NodeView>, k: int, s: Seq<char>, i: int)
    requires
        0 <= k < i <= insts.len(),
        spec_resolve_entry(insts, i) == Ok::<Option<Seq<char>>, CompileError>(Some(s)),
        forall|j: int| 0 <= j < insts.len() && j != k ==> !spec_is_init_entry(#[trigger] insts[j]),
    ensures
        spec_resolve_entry(insts, insts.len() as int) == Ok::<Option<Seq<char>>, CompileError>(
            Some(s),
        ),
    decreases insts.len() - i,
{
    if i < insts.len() {
        lemma_single_entry_assignment_from(insts, k, s, i + 1);
    }
}

/// Whether a top-level declaration declares a controller-entry
/// structure.
pub open spec fn spec_is_controller_entry_decl(d: NodeView) -> bool {
    match d {
        NodeView::Declaration(inner) => match *inner {
            NodeView::StructureDeclaration { s_type, .. } => spec_classify(s_type)
                == Structure::ControllerEntry,
            _ => false,
        },
        _ => false,
    }
}

/// A declaration that is no controller entry contributes no
/// controller-entry state.
proof fn lemma_no_entry_states(decls: Seq<NodeView>, i: int)
    requires
        0 <= i <= decls.len(),
        forall|k: int| 0 <= k < decls.len() ==> !spec_is_controller_entry_decl(#[trigger] decls[k]),
    ensures
        (match spec_convert_decls(decls, i) {
            Ok(states) => forall|k: int|
                0 <= k < states.len() ==> (#[trigger] states[k]).scope.label
                    != Structure::ControllerEntry,
            Err(_) => true,
        }),
    decreases i,
{
    if 0 < i <= decls.len() {
        lemma_no_entry_states(decls, i - 1);
    }
}

/// A state list without a state of the given kind has no first state
/// of that kind.
proof fn lemma_find_structure_none(states: Seq<StateView>, key: Structure, i: int)
    requires
        0 <= i,
        forall|k: int| 0 <= k < states.len() ==> (#[trigger] states[k]).scope.label != key,
    ensures
        StateMachine::spec_find_structure(states, key, i) is None,
    decreases states.len() - i,
{
    if i < states.len() {
        lemma_find_structure_none(states, key, i + 1);
    }
}

/// A program with no controller-entry structure converts to a
/// `MissingEntry` error, provided its declarations themselves convert
/// without an earlier error; since conversion fails, no machine exists
/// and no output text is ever rendered from it.
pub proof fn lemma_missing_entry(node: NodeView)
    requires
        (match node {
            NodeView::Top(decls) => {
                &&& forall|k: int|
                    0 <= k < decls.len() ==> !spec_is_controller_entry_decl(#[trigger] decls[k])
                &&& spec_convert_decls(decls, decls.len() as int) is Ok
            },
            _ => true,
        }),
    ensures
        spec_convert_program(node) == Err::<StateMachineView, CompileError>(
            CompileError::MissingEntry,
        ),
{
    match node {
        NodeView::Top(decls) => {
            lemma_no_entry_states(decls, decls.len() as int);
            match spec_convert_decls(decls, decls.len() as int) {
                Ok(states) => {
                    lemma_find_structure_none(states, Structure::ControllerEntry, 0);
                },
                Err(_) => {},
            }
        },
        _ => {
            lemma_find_structure_none(Seq::empty(), Structure::ControllerEntry, 0);
        },
    }
}

/// Converts a program's AST into its state machine, per
/// [`spec_convert_program`].
#[verifier::loop_isolation(false)]
pub fn convert(node: ASTNode) -> (r: Result<StateMachine, CompileError>)
    ensures
        (match spec_convert_program(node@) {
            Ok(m) => r matches Ok(sm) && sm@ == m,
            Err(e) => r matches Err(e2) && e2 == e,
        }),
{
    let mut cfgs = StateMachine::new();
    if let ASTNode::Top(decls) = &node {
        proof {
            crate::ast::lemma_nodes_view(decls@);
        }
        let n = decls.len();
        let mut i: usize = 0;
        while i < n
            invariant
                i <= n,
                n == decls@.len(),
                cfgs@.fsm_name == Seq::<char>::empty(),
                cfgs@.entry == Seq::<char>::empty(),
                spec_convert_decls(crate::ast::nodes_view(decls@), i as int) == Ok::<
                    Seq<StateView>,
                    CompileError,
                >(cfgs@.cfgs),
            decreases n - i,
        {
            match &decls[i] {
                ASTNode::Declaration(structure) => {
                    match &**structure {
                        ASTNode::StructureDeclaration { s_type, name, statement } => {
                            let r = convert_struct(s_type, name, &**statement, &mut cfgs);
                            proof {
                                assert(decls@[i as int]@ == NodeView::Declaration(
                                    Box::new((**structure)@),
                                ));
                                assert((**structure)@ == (NodeView::StructureDeclaration {
                                    s_type: s_type@,
                                    name: name@,
                                    statement: Box::new((**statement)@),
                                }));
                            }
                            if let Err(e) = r {
                                proof {
                                    lemma_convert_decls_err(
                                        crate::ast::nodes_view(decls@),
                                        i + 1,
                                    );
                                }
                                return Err(e);
                            }
                        },
                        _ => {},
                    }
                },
                _ => {},
            }
            i = i + 1;
        }
    }
    let fsm_name: String;
    let entry: String;
    match cfgs.get_cfg_structure(Structure::ControllerEntry) {
        None => {
            return Err(CompileError::MissingEntry);
        },
        Some(ret) => {
            fsm_name = ret.scope.name.clone();
            proof {
                lemma_insts_view(ret.insts@);
            }
            let m = ret.insts.len();
            let mut entry_found: Option<String> = None;
            let mut j: usize = 0;
            while j < m
                invariant
                    j <= m,
                    m == ret.insts@.len(),
                    spec_resolve_entry(insts_view(ret.insts@), j as int) == Ok::<
                        Option<Seq<char>>,
                        CompileError,
                    >(
                        match entry_found {
                            Some(ref e) => Some(e@),
                            None => None,
                        },
                    ),
                decreases m - j,
            {
                match &ret.insts[j] {
                    Inst::Stmt(ASTNode::Assignment { name, expr }) => {
                        proof {
                            assert(insts_view(ret.insts@)[j as int] == (NodeView::Assignment {
                                name: name@,
                                expr: Box::new((**expr)@),
                            }));
                        }
                        let trimmed = trim_str(name.as_str());
                        if str_eq(trimmed.as_str(), "init_entry") {
                            match &**expr {
                                ASTNode::QualifiedName { names } => {
                                    proof {
                                        crate::ast::lemma_nodes_view(names@);
                                        assert((**expr)@ == (NodeView::QualifiedName {
                                            names: crate::ast::nodes_view(names@),
                                        }));
                                    }
                                    if names.len() >= 1 {
                                        match &names[0] {
                                            ASTNode::Ident(e) => {
                                                proof {
                                                    assert(crate::ast::nodes_view(names@)[0]
                                                        == NodeView::Ident(e@));
                                                }
                                                entry_found = Some(e.clone());
                                            },
                                            _ => {
                                                proof {
                                                    lemma_resolve_entry_err(
                                                        insts_view(ret.insts@),
                                                        j + 1,
                                                    );
                                                }
                                                return Err(CompileError::MissingEntry);
                                            },
                                        }
                                    } else {
                                        proof {
                                            lemma_resolve_entry_err(insts_view(ret.insts@), j + 1);
                                        }
                                        return Err(CompileError::MissingEntry);
                                    }
                                },
                                _ => {
                                    proof {
                                        lemma_resolve_entry_err(insts_view(ret.insts@), j + 1);
                                    }
                                    return Err(CompileError::MissingEntry);
                                },
                            }
                        }
                    },
                    _ => {},
                }
                j = j + 1;
            }
            match entry_found {
                None => {
                    return Err(CompileError::MissingEntry);
                },
                Some(e) => {
                    entry = e;
                },
            }
        },
    }
    cfgs.fsm_name = fsm_name;
    cfgs.entry = entry;
    Ok(cfgs)
}

impl Scope {
    /// The scope of nothing: unrecognized kind, empty name.
    pub fn new() -> (r: Self)
        ensures
            r@.label == Structure::Unrecognized,
            r@.name == Seq::<char>::empty(),
    {
        Scope { label: Structure::Unrecognized, name: String::new() }
    }

    /// A scope from a kind and a name.
    pub fn from(label: Structure, name: String) -> (r: Self)
        ensures
            r@.label == label,
            r@.name == name@,
    {
        Scope { label, name }
    }

    /// Whether this scope is of the given kind.
    pub fn is_structure(&self, strut: &Structure) -> (r: bool)
        ensures
            r == (*strut == self.label),
    {
        *strut == self.label
    }
}

} // verus!
