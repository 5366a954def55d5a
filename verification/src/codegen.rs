//! Code generation: renders an assembled state machine as textual
//! finite-state-machine IR.
//!
//! Rendering aborts on the first error; no partial output is ever
//! produced.

use vstd::prelude::*;
use vstd::string::StringExecFns;
use crate::ast::ASTNode;
use crate::ast::BinVerb;
use crate::ast::NodeView;
use crate::cfg::StateMachine;
use crate::cfg::StateMachineView;
use crate::cfg::StateView;
use crate::cfg::Structure;
use crate::cfg::TransitionView;
use crate::error::CompileError;
use crate::utils::ConversionTable;
use crate::utils::AQLTypeView;
use crate::utils::spec_dec;
use crate::utils::spec_trim;
use crate::utils::usize_to_string;

verus! {

/// The relational and equality verbs: those whose negation is another
/// comparison.
pub open spec fn spec_is_comparison(v: BinVerb) -> bool {
    ||| v == BinVerb::SmallerThan
    ||| v == BinVerb::LargerThan
    ||| v == BinVerb::SmallerOrEqual
    ||| v == BinVerb::LargerOrEqual
    ||| v == BinVerb::Equal
    ||| v == BinVerb::NotEqual
}

/// The complementary comparison: the verb that holds exactly when the
/// given one does not. Verbs that are not comparisons are left as they
/// are.
pub open spec fn spec_complement(v: BinVerb) -> BinVerb {
    match v {
        BinVerb::SmallerThan => BinVerb::LargerOrEqual,
        BinVerb::LargerThan => BinVerb::SmallerOrEqual,
        BinVerb::SmallerOrEqual => BinVerb::LargerThan,
        BinVerb::LargerOrEqual => BinVerb::SmallerThan,
        BinVerb::Equal => BinVerb::NotEqual,
        BinVerb::NotEqual => BinVerb::Equal,
        _ => v,
    }
}

/// Collapses any stack of negations: double negations cancel, one
/// remaining negation of a comparison becomes the complementary
/// comparison, and negating anything else is an `UnsupportedVerb`
/// error. A verb that is not a negation is returned unchanged.
pub open spec fn spec_reduce_neg(v: BinVerb) -> Result<BinVerb, CompileError>
    decreases v,
{
    match v {
        BinVerb::Neg(inner) => match *inner {
            BinVerb::Neg(inner2) => spec_reduce_neg(*inner2),
            _ => if spec_is_comparison(*inner) {
                Ok(spec_complement(*inner))
            } else {
                Err(CompileError::UnsupportedVerb)
            },
        },
        _ => Ok(v),
    }
}

/// The complement is involutive: taking it twice gives the verb back,
/// for every relational and equality verb.
pub proof fn lemma_complement_involutive(v: BinVerb)
    requires
        spec_is_comparison(v),
    ensures
        spec_complement(spec_complement(v)) == v,
{
}

/// Negation by `Neg`-wrapping is involutive: reducing a doubly wrapped
/// comparison gives the verb back, and wrapping the reduction of a
/// wrapped comparison reduces to the verb as well.
pub proof fn lemma_negation_involutive(v: BinVerb)
    requires
        spec_is_comparison(v),
    ensures
        spec_reduce_neg(BinVerb::Neg(Box::new(BinVerb::Neg(Box::new(v))))) == Ok::<
            BinVerb,
            CompileError,
        >(v),
        spec_reduce_neg(BinVerb::Neg(Box::new(spec_complement(v)))) == Ok::<
            BinVerb,
            CompileError,
        >(v),
{
    reveal_with_fuel(spec_reduce_neg, 3);
    lemma_complement_involutive(v);
}

/// Resolves a verb, collapsing negations, per [`spec_reduce_neg`].
pub fn reduce_neg(verb: &BinVerb) -> (r: Result<BinVerb, CompileError>)
    ensures
        (match spec_reduce_neg(*verb) {
            Ok(v) => r matches Ok(rv) && rv == v,
            Err(e) => r matches Err(e2) && e2 == e,
        }),
    decreases verb,
{
    match verb {
        BinVerb::Neg(v) => match &**v {
            BinVerb::Neg(inner_v) => reduce_neg(inner_v),
            BinVerb::SmallerThan => Ok(BinVerb::LargerOrEqual),
            BinVerb::LargerThan => Ok(BinVerb::SmallerOrEqual),
            BinVerb::SmallerOrEqual => Ok(BinVerb::LargerThan),
            BinVerb::LargerOrEqual => Ok(BinVerb::SmallerThan),
            BinVerb::Equal => Ok(BinVerb::NotEqual),
            BinVerb::NotEqual => Ok(BinVerb::Equal),
            _ => Err(CompileError::UnsupportedVerb),
        },
        _ => Ok(verb.clone()),
    }
}

/// The comparison symbol a verb lowers to, after collapsing negations:
/// a verb that does not resolve to a comparison is an
/// `UnsupportedVerb` error.
pub open spec fn spec_binverb_symbol(verb: BinVerb) -> Result<Seq<char>, CompileError> {
    match spec_reduce_neg(verb) {
        Err(e) => Err(e),
        Ok(v) => match v {
            BinVerb::SmallerThan => Ok("ult"@),
            BinVerb::LargerThan => Ok("ugt"@),
            BinVerb::SmallerOrEqual => Ok("ule"@),
            BinVerb::LargerOrEqual => Ok("uge"@),
            BinVerb::Equal => Ok("eq"@),
            BinVerb::NotEqual => Ok("ne"@),
            _ => Err(CompileError::UnsupportedVerb),
        },
    }
}

/// The comparison symbol for a verb, per [`spec_binverb_symbol`].
pub fn get_binverb(verb: &BinVerb) -> (r: Result<String, CompileError>)
    ensures
        (match spec_binverb_symbol(*verb) {
            Ok(sym) => r matches Ok(s) && s@ == sym,
            Err(e) => r matches Err(e2) && e2 == e,
        }),
{
    let reduced = match reduce_neg(verb) {
        Ok(v) => v,
        Err(e) => {
            return Err(e);
        },
    };
    match reduced {
        BinVerb::SmallerThan => Ok(String::from_str("ult")),
        BinVerb::LargerThan => Ok(String::from_str("ugt")),
        BinVerb::SmallerOrEqual => Ok(String::from_str("ule")),
        BinVerb::LargerOrEqual => Ok(String::from_str("uge")),
        BinVerb::Equal => Ok(String::from_str("eq")),
        BinVerb::NotEqual => Ok(String::from_str("ne")),
        _ => Err(CompileError::UnsupportedVerb),
    }
}

/// The rendering of a qualified name's components before position `i`:
/// each identifier component, dots between all but the last position.
pub open spec fn spec_qualified_name(names: Seq<NodeView>, i: int) -> Seq<char>
    decreases i,
{
    if i <= 0 || i > names.len() {
        Seq::empty()
    } else {
        spec_qualified_name(names, i - 1) + (match names[i - 1] {
            NodeView::Ident(s) => s + (if i - 1 != names.len() - 1 {
                "."@
            } else {
                Seq::<char>::empty()
            }),
            _ => Seq::empty(),
        })
    }
}

/// The rendering of a value reference: `%` before a plain identifier
/// or a dotted qualified name. Any other expression form is a
/// `NotImplemented` error.
pub open spec fn spec_generate_stmt(node: NodeView) -> Result<Seq<char>, CompileError> {
    match node {
        NodeView::Ident(var) => Ok("%"@ + var),
        NodeView::QualifiedName { names } => Ok(
            "%"@ + spec_qualified_name(names, names.len() as int),
        ),
        _ => Err(CompileError::NotImplemented),
    }
}

/// Renders a value reference, per [`spec_generate_stmt`].
#[verifier::loop_isolation(false)]
pub fn generate_stmt(node: &ASTNode) -> (r: Result<String, CompileError>)
    ensures
        (match spec_generate_stmt(node@) {
            Ok(text) => r matches Ok(s) && s@ == text,
            Err(e) => r matches Err(e2) && e2 == e,
        }),
{
    match node {
        ASTNode::Ident(var) => {
            let mut ret = String::from_str("%");
            ret.append(var.as_str());
            Ok(ret)
        },
        ASTNode::QualifiedName { names } => {
            proof {
                crate::ast::lemma_nodes_view(names@);
            }
            let mut ret = String::from_str("%");
            let n = names.len();
            let mut i: usize = 0;
            while i < n
                invariant
                    i <= n,
                    n == names@.len(),
                    ret@ == "%"@ + spec_qualified_name(
                        crate::ast::nodes_view(names@),
                        i as int,
                    ),
                decreases n - i,
            {
                match &names[i] {
                    ASTNode::Ident(ident) => {
                        ret.append(ident.as_str());
                        if i != n - 1 {
                            ret.append(".");
                        }
                    },
                    _ => {},
                }
                i = i + 1;
            }
            Ok(ret)
        },
        _ => Err(CompileError::NotImplemented),
    }
}

/// The comparison lines of the guards before position `i`: one
/// `comb.icmp` line for each binary-operation guard, numbered by its
/// position in the whole guard list; guards of any other form
/// contribute no line.
pub open spec fn spec_guard_conds(guards: Seq<NodeView>, i: int) -> Result<Seq<char>, CompileError>
    decreases i,
{
    if i <= 0 || i > guards.len() {
        Ok(Seq::empty())
    } else {
        match spec_guard_conds(guards, i - 1) {
            Err(e) => Err(e),
            Ok(acc) => match guards[i - 1] {
                NodeView::BinOp { verb, lhs, rhs } => match spec_binverb_symbol(verb) {
                    Err(e) => Err(e),
                    Ok(sym) => match spec_generate_stmt(*lhs) {
                        Err(e) => Err(e),
                        Ok(l) => match spec_generate_stmt(*rhs) {
                            Err(e) => Err(e),
                            Ok(rr) => Ok(
                                acc + "\t\t\t%"@ + spec_dec((i - 1) as nat) + " = comb.icmp "@
                                    + sym + " "@ + l + ", "@ + rr + " : i32"@ + "\n"@,
                            ),
                        },
                    },
                },
                _ => Ok(acc),
            },
        }
    }
}

/// Once a prefix of the guards fails to lower, the whole list fails
/// the same way.
proof fn lemma_guard_conds_err(guards: Seq<NodeView>, i: int)
    requires
        0 <= i <= guards.len(),
        spec_guard_conds(guards, i) is Err,
    ensures
        spec_guard_conds(guards, guards.len() as int) == spec_guard_conds(guards, i),
    decreases guards.len() - i,
{
    if i < guards.len() {
        lemma_guard_conds_err(guards, i + 1);
    }
}

/// The operand list of the conjunction over the guards before position
/// `i`: one `%<n>` operand per binary-operation guard, commas after
/// all but the guard in the last position.
pub open spec fn spec_guard_operands(guards: Seq<NodeView>, i: int) -> Seq<char>
    decreases i,
{
    if i <= 0 || i > guards.len() {
        Seq::empty()
    } else {
        spec_guard_operands(guards, i - 1) + (match guards[i - 1] {
            NodeView::BinOp { .. } => " %"@ + spec_dec((i - 1) as nat) + (if i - 1 != guards.len()
                - 1 {
                ","@
            } else {
                Seq::<char>::empty()
            }),
            _ => Seq::empty(),
        })
    }
}

/// The guard sub-block of a transition: each guard lowered to an
/// integer comparison, all results conjoined into one boolean that the
/// block returns.
pub open spec fn spec_parse_guards(guards: Seq<NodeView>) -> Result<Seq<char>, CompileError> {
    match spec_guard_conds(guards, guards.len() as int) {
        Err(e) => Err(e),
        Ok(conds) => Ok(
            "guard {\n"@ + conds + "\t\t\t%fsm_output = comb.and"@ + spec_guard_operands(
                guards,
                guards.len() as int,
            ) + " : i1\n"@ + "\t\t\tfsm.return %fsm_output\n\t\t}"@,
        ),
    }
}

/// Renders the guard sub-block of a transition, per
/// [`spec_parse_guards`].
#[verifier::loop_isolation(false)]
pub fn parse_guards(guards: &Vec<ASTNode>) -> (r: Result<String, CompileError>)
    ensures
        (match spec_parse_guards(crate::ast::nodes_view(guards@)) {
            Ok(text) => r matches Ok(s) && s@ == text,
            Err(e) => r matches Err(e2) && e2 == e,
        }),
{
    proof {
        crate::ast::lemma_nodes_view(guards@);
    }
    let ghost gv = crate::ast::nodes_view(guards@);
    let mut conds = String::new();
    let mut ops = String::new();
    let n = guards.len();
    let mut i: usize = 0;
    while i < n
        invariant
            i <= n,
            n == guards@.len(),
            spec_guard_conds(gv, i as int) == Ok::<Seq<char>, CompileError>(conds@),
            ops@ == spec_guard_operands(gv, i as int),
        decreases n - i,
    {
        match &guards[i] {
            ASTNode::BinOp { verb, lhs, rhs } => {
                proof {
                    assert(gv[i as int] == (NodeView::BinOp {
                        verb: *verb,
                        lhs: Box::new((**lhs)@),
                        rhs: Box::new((**rhs)@),
                    }));
                }
                let symbol = match get_binverb(verb) {
                    Ok(s) => s,
                    Err(e) => {
                        proof {
                            lemma_guard_conds_err(gv, i + 1);
                        }
                        return Err(e);
                    },
                };
                let l = match generate_stmt(&**lhs) {
                    Ok(s) => s,
                    Err(e) => {
                        proof {
                            lemma_guard_conds_err(gv, i + 1);
                        }
                        return Err(e);
                    },
                };
                let rr = match generate_stmt(&**rhs) {
                    Ok(s) => s,
                    Err(e) => {
                        proof {
                            lemma_guard_conds_err(gv, i + 1);
                        }
                        return Err(e);
                    },
                };
                let num = usize_to_string(i);
                conds.append("\t\t\t%");
                conds.append(num.as_str());
                conds.append(" = comb.icmp ");
                conds.append(symbol.as_str());
                conds.append(" ");
                conds.append(l.as_str());
                conds.append(", ");
                conds.append(rr.as_str());
                conds.append(" : i32");
                conds.append("\n");
                ops.append(" %");
                ops.append(num.as_str());
                if i != n - 1 {
                    ops.append(",");
                }
            },
            _ => {},
        }
        i = i + 1;
    }
    let mut ret = String::from_str("guard {\n");
    ret.append(conds.as_str());
    ret.append("\t\t\t%fsm_output = comb.and");
    ret.append(ops.as_str());
    ret.append(" : i1\n");
    ret.append("\t\t\tfsm.return %fsm_output\n\t\t}");
    Ok(ret)
}

/// The update lines of the actions before position `i`: one
/// `fsm.update` line per assignment; actions of any other form
/// contribute no line.
pub open spec fn spec_action_lines(actions: Seq<NodeView>, i: int) -> Result<
    Seq<char>,
    CompileError,
>
    decreases i,
{
    if i <= 0 || i > actions.len() {
        Ok(Seq::empty())
    } else {
        match spec_action_lines(actions, i - 1) {
            Err(e) => Err(e),
            Ok(acc) => match actions[i - 1] {
                NodeView::Assignment { name, expr } => match spec_generate_stmt(*expr) {
                    Err(e) => Err(e),
                    Ok(rhs) => Ok(
                        acc + "\t\t\tfsm.update %"@ + name + ", "@ + rhs + " : i32\n"@,
                    ),
                },
                _ => Ok(acc),
            },
        }
    }
}

/// Once a prefix of the actions fails to lower, the whole list fails
/// the same way.
proof fn lemma_action_lines_err(actions: Seq<NodeView>, i: int)
    requires
        0 <= i <= actions.len(),
        spec_action_lines(actions, i) is Err,
    ensures
        spec_action_lines(actions, actions.len() as int) == spec_action_lines(actions, i),
    decreases actions.len() - i,
{
    if i < actions.len() {
        lemma_action_lines_err(actions, i + 1);
    }
}

/// The action sub-block of a transition: one update instruction per
/// assignment executed along the path.
pub open spec fn spec_generate_actions(actions: Seq<NodeView>) -> Result<Seq<char>, CompileError> {
    match spec_action_lines(actions, actions.len() as int) {
        Err(e) => Err(e),
        Ok(lines) => Ok(" action {\n"@ + lines + "\t\t}\n"@),
    }
}

/// Renders the action sub-block of a transition, per
/// [`spec_generate_actions`].
#[verifier::loop_isolation(false)]
pub fn generate_actions(actions: &Vec<ASTNode>) -> (r: Result<String, CompileError>)
    ensures
        (match spec_generate_actions(crate::ast::nodes_view(actions@)) {
            Ok(text) => r matches Ok(s) && s@ == text,
            Err(e) => r matches Err(e2) && e2 == e,
        }),
{
    proof {
        crate::ast::lemma_nodes_view(actions@);
    }
    let ghost av = crate::ast::nodes_view(actions@);
    let mut lines = String::new();
    let n = actions.len();
    let mut i: usize = 0;
    while i < n
        invariant
            i <= n,
            n == actions@.len(),
            spec_action_lines(av, i as int) == Ok::<Seq<char>, CompileError>(lines@),
        decreases n - i,
    {
        match &actions[i] {
            ASTNode::Assignment { name, expr } => {
                proof {
                    assert(av[i as int] == (NodeView::Assignment {
                        name: name@,
                        expr: Box::new((**expr)@),
                    }));
                }
                let rhs = match generate_stmt(&**expr) {
                    Ok(s) => s,
                    Err(e) => {
                        proof {
                            lemma_action_lines_err(av, i + 1);
                        }
                        return Err(e);
                    },
                };
                lines.append("\t\t\tfsm.update %");
                lines.append(name.as_str());
                lines.append(", ");
                lines.append(rhs.as_str());
                lines.append(" : i32\n");
            },
            _ => {},
        }
        i = i + 1;
    }
    let mut ret = String::from_str(" action {\n");
    ret.append(lines.as_str());
    ret.append("\t\t}\n");
    Ok(ret)
}

/// The initialization line of one recorded instruction.
///
/// A variable declaration renders one `fsm.variable` line: with a
/// constant initializer its value is the constant, resolved through
/// the ordering encoding for the ordering type (`FIFO` is zero, `Hash`
/// one, anything else two); without an initializer the value is the
/// zero default of the resolved type. A type outside the conversion
/// table is an `UnknownType` error. A declaration whose initializer is
/// not a plain constant renders nothing, and any instruction that is
/// not a variable declaration renders nothing.
pub open spec fn spec_generate_decl(decl: NodeView) -> Result<Seq<char>, CompileError> {
    match decl {
        NodeView::VariableDeclaration { typed_identifier, expr } => match *typed_identifier {
            NodeView::TypedIdentifier { aql_type, variable } => match crate::utils::spec_convert(
                spec_trim(aql_type),
            ) {
                None => Err(CompileError::UnknownType),
                Some(t) => match expr {
                    Some(v) => match *v {
                        NodeView::ConstVal(cv) => {
                            let value = (match t {
                                AQLTypeView::Base(b) => cv,
                                AQLTypeView::Ordering => if cv == "FIFO"@ {
                                    "0"@
                                } else if cv == "Hash"@ {
                                    "1"@
                                } else {
                                    "2"@
                                },
                            });
                            let ty = (match t {
                                AQLTypeView::Base(b) => b,
                                AQLTypeView::Ordering => "i32"@,
                            });
                            Ok(
                                "%"@ + variable + " = fsm.variable \""@ + variable
                                    + "\" {initValue = "@ + value + " : "@ + ty + " } : "@ + ty,
                            )
                        },
                        _ => Ok(Seq::empty()),
                    },
                    None => {
                        let ty = (match t {
                            AQLTypeView::Base(b) => b,
                            AQLTypeView::Ordering => "i32"@,
                        });
                        Ok(
                            "%"@ + variable + " = fsm.variable \""@ + variable
                                + "\" {initValue = 0 : "@ + ty + " } : "@ + ty,
                        )
                    },
                },
            },
            _ => Err(CompileError::NotImplemented),
        },
        _ => Ok(Seq::empty()),
    }
}

/// Renders the initialization line of one recorded instruction, per
/// [`spec_generate_decl`]. Types are resolved through the given
/// conversion table.
pub fn generate_decl(decl: &ASTNode, tbs: &ConversionTable) -> (r: Result<String, CompileError>)
    ensures
        (match spec_generate_decl(decl@) {
            Ok(text) => r matches Ok(s) && s@ == text,
            Err(e) => r matches Err(e2) && e2 == e,
        }),
{
    match decl {
        ASTNode::VariableDeclaration { typed_identifier, expr } => {
            match &**typed_identifier {
                ASTNode::TypedIdentifier { aql_type, variable } => {
                    proof {
                        assert((**typed_identifier)@ == (NodeView::TypedIdentifier {
                            aql_type: aql_type@,
                            variable: variable@,
                        }));
                    }
                    let t = match tbs.convert(aql_type) {
                        Ok(t) => t,
                        Err(e) => {
                            return Err(e);
                        },
                    };
                    match expr {
                        Some(v) => {
                            match &**v {
                                ASTNode::ConstVal(cv) => {
                                    proof {
                                        assert((**v)@ == NodeView::ConstVal(cv@));
                                    }
                                    let value: String = match &t {
                                        crate::utils::AQLType::Base(_) => cv.clone(),
                                        crate::utils::AQLType::Ordering => {
                                            if crate::utils::str_eq(cv.as_str(), "FIFO") {
                                                String::from_str("0")
                                            } else if crate::utils::str_eq(cv.as_str(), "Hash") {
                                                String::from_str("1")
                                            } else {
                                                String::from_str("2")
                                            }
                                        },
                                    };
                                    let ty: String = match t {
                                        crate::utils::AQLType::Base(b) => b,
                                        crate::utils::AQLType::Ordering => String::from_str("i32"),
                                    };
                                    let mut ret = String::from_str("%");
                                    ret.append(variable.as_str());
                                    ret.append(" = fsm.variable \"");
                                    ret.append(variable.as_str());
                                    ret.append("\" {initValue = ");
                                    ret.append(value.as_str());
                                    ret.append(" : ");
                                    ret.append(ty.as_str());
                                    ret.append(" } : ");
                                    ret.append(ty.as_str());
                                    proof {
                                        assert(ret@ =~= "%"@ + variable@ + " = fsm.variable \""@
                                            + variable@ + "\" {initValue = "@ + value@ + " : "@
                                            + ty@ + " } : "@ + ty@);
                                        assert(spec_generate_decl(decl@) is Ok);
                                        assert(spec_generate_decl(decl@)->Ok_0 =~= ret@);
                                    }
                                    Ok(ret)
                                },
                                _ => {
                                    proof {
                                        assert(!((**v)@ matches NodeView::ConstVal(_)));
                                        assert(spec_generate_decl(decl@) == Ok::<
                                            Seq<char>,
                                            CompileError,
                                        >(Seq::empty()));
                                    }
                                    Ok(String::new())
                                },
                            }
                        },
                        None => {
                            let ty: String = match t {
                                crate::utils::AQLType::Base(b) => b,
                                crate::utils::AQLType::Ordering => String::from_str("i32"),
                            };
                            let mut ret = String::from_str("%");
                            ret.append(variable.as_str());
                            ret.append(" = fsm.variable \"");
                            ret.append(variable.as_str());
                            ret.append("\" {initValue = 0 : ");
                            ret.append(ty.as_str());
                            ret.append(" } : ");
                            ret.append(ty.as_str());
                            proof {
                                assert(ret@ =~= "%"@ + variable@ + " = fsm.variable \""@
                                    + variable@ + "\" {initValue = 0 : "@ + ty@ + " } : "@ + ty@);
                                assert(spec_generate_decl(decl@) is Ok);
                                assert(spec_generate_decl(decl@)->Ok_0 =~= ret@);
                            }
                            Ok(ret)
                        },
                    }
                },
                _ => {
                    proof {
                        assert(!((**typed_identifier)@ matches NodeView::TypedIdentifier { .. }));
                        assert(spec_generate_decl(decl@) == Err::<Seq<char>, CompileError>(
                            CompileError::NotImplemented,
                        ));
                    }
                    Err(CompileError::NotImplemented)
                },
            }
        },
        _ => {
            proof {
                assert(!(decl@ matches NodeView::VariableDeclaration { .. }));
                assert(spec_generate_decl(decl@) == Ok::<Seq<char>, CompileError>(Seq::empty()));
            }
            Ok(String::new())
        },
    }
}

/// The initialization lines of one state's recorded instructions
/// before position `i`: one indented line per instruction that renders
/// something.
pub open spec fn spec_state_decl_lines(insts: Seq<NodeView>, i: int) -> Result<
    Seq<char>,
    CompileError,
>
    decreases i,
{
    if i <= 0 || i > insts.len() {
        Ok(Seq::empty())
    } else {
        match spec_state_decl_lines(insts, i - 1) {
            Err(e) => Err(e),
            Ok(acc) => match spec_generate_decl(insts[i - 1]) {
                Err(e) => Err(e),
                Ok(line) => Ok(
                    acc + (if line.len() == 0 {
                        Seq::<char>::empty()
                    } else {
                        "\t"@ + line + "\n"@
                    }),
                ),
            },
        }
    }
}

/// Once a prefix of a state's instructions fails to render, the whole
/// list fails the same way.
proof fn lemma_state_decl_lines_err(insts: Seq<NodeView>, i: int)
    requires
        0 <= i <= insts.len(),
        spec_state_decl_lines(insts, i) is Err,
    ensures
        spec_state_decl_lines(insts, insts.len() as int) == spec_state_decl_lines(insts, i),
    decreases insts.len() - i,
{
    if i < insts.len() {
        lemma_state_decl_lines_err(insts, i + 1);
    }
}

/// The initialization lines of the states before position `i`, in
/// state order.
pub open spec fn spec_decl_lines(states: Seq<StateView>, i: int) -> Result<Seq<char>, CompileError>
    decreases i,
{
    if i <= 0 || i > states.len() {
        Ok(Seq::empty())
    } else {
        match spec_decl_lines(states, i - 1) {
            Err(e) => Err(e),
            Ok(acc) => match spec_state_decl_lines(
                states[i - 1].insts,
                states[i - 1].insts.len() as int,
            ) {
                Err(e) => Err(e),
                Ok(lines) => Ok(acc + lines),
            },
        }
    }
}

/// Once a prefix of the states fails to render its initialization
/// lines, the whole list fails the same way.
proof fn lemma_decl_lines_err(states: Seq<StateView>, i: int)
    requires
        0 <= i <= states.len(),
        spec_decl_lines(states, i) is Err,
    ensures
        spec_decl_lines(states, states.len() as int) == spec_decl_lines(states, i),
    decreases states.len() - i,
{
    if i < states.len() {
        lemma_decl_lines_err(states, i + 1);
    }
}

/// The rendered transitions before position `i` of one state's
/// transition list: one `fsm.transition` line per entry, with its
/// guard sub-block when it has guards and its action sub-block when it
/// has actions.
pub open spec fn spec_transition_lines(trans: Seq<TransitionView>, i: int) -> Result<
    Seq<char>,
    CompileError,
>
    decreases i,
{
    if i <= 0 || i > trans.len() {
        Ok(Seq::empty())
    } else {
        match spec_transition_lines(trans, i - 1) {
            Err(e) => Err(e),
            Ok(acc) => {
                let t = trans[i - 1];
                let guards_part = (match t.guards {
                    None => Ok(Seq::<char>::empty()),
                    Some(gs) => spec_parse_guards(gs),
                });
                match guards_part {
                    Err(e) => Err(e),
                    Ok(gtext) => {
                        let actions_part = (match t.actions {
                            None => Ok("\n"@),
                            Some(acts) => spec_generate_actions(acts),
                        });
                        match actions_part {
                            Err(e) => Err(e),
                            Ok(atext) => Ok(
                                acc + "\t\tfsm.transition @"@ + t.target + " "@ + gtext + atext,
                            ),
                        }
                    },
                }
            },
        }
    }
}

/// Once a prefix of the transitions fails to render, the whole list
/// fails the same way.
proof fn lemma_transition_lines_err(trans: Seq<TransitionView>, i: int)
    requires
        0 <= i <= trans.len(),
        spec_transition_lines(trans, i) is Err,
    ensures
        spec_transition_lines(trans, trans.len() as int) == spec_transition_lines(trans, i),
    decreases trans.len() - i,
{
    if i < trans.len() {
        lemma_transition_lines_err(trans, i + 1);
    }
}

/// The state blocks of the states before position `i`: one
/// `fsm.state` block per state of state kind, holding its rendered
/// transitions; structures of other kinds render no block.
pub open spec fn spec_state_blocks(states: Seq<StateView>, i: int) -> Result<
    Seq<char>,
    CompileError,
>
    decreases i,
{
    if i <= 0 || i > states.len() {
        Ok(Seq::empty())
    } else {
        match spec_state_blocks(states, i - 1) {
            Err(e) => Err(e),
            Ok(acc) => {
                let st = states[i - 1];
                if st.scope.label == Structure::State {
                    match spec_transition_lines(st.next, st.next.len() as int) {
                        Err(e) => Err(e),
                        Ok(tl) => Ok(
                            acc + "\tfsm.state @"@ + st.scope.name + " transitions {\n"@ + tl
                                + "\n\t}\n\n"@,
                        ),
                    }
                } else {
                    Ok(acc)
                }
            },
        }
    }
}

/// Once a prefix of the states fails to render its block, the whole
/// list fails the same way.
proof fn lemma_state_blocks_err(states: Seq<StateView>, i: int)
    requires
        0 <= i <= states.len(),
        spec_state_blocks(states, i) is Err,
    ensures
        spec_state_blocks(states, states.len() as int) == spec_state_blocks(states, i),
    decreases states.len() - i,
{
    if i < states.len() {
        lemma_state_blocks_err(states, i + 1);
    }
}

/// The rendered IR of a machine: the machine header naming the machine
/// and its entry state, one initialization line per rendered variable
/// declaration of every state, one state block per state of state
/// kind, and the closing brace.
pub open spec fn spec_generate(m: StateMachineView) -> Result<Seq<char>, CompileError> {
    match spec_decl_lines(m.cfgs, m.cfgs.len() as int) {
        Err(e) => Err(e),
        Ok(decls) => match spec_state_blocks(m.cfgs, m.cfgs.len() as int) {
            Err(e) => Err(e),
            Ok(blocks) => Ok(
                "fsm.machine @"@ + m.fsm_name + "(%arg0: i1, %arg1: i1) attributes {initialState = \""@
                    + m.entry + "\"}"@ + " {\n"@ + decls + blocks + "}\n"@,
            ),
        },
    }
}

/// Renders a machine as textual IR, per [`spec_generate`]. Rendering
/// aborts on the first error; no text is handed out on failure.
#[verifier::loop_isolation(false)]
#[verifier::rlimit(100)]
pub fn generate(cfgs: StateMachine) -> (r: Result<String, CompileError>)
    ensures
        (match spec_generate(cfgs@) {
            Ok(text) => r matches Ok(s) && s@ == text,
            Err(e) => r matches Err(e2) && e2 == e,
        }),
{
    let tbs = ConversionTable::new();
    proof {
        crate::cfg::lemma_states_view(cfgs.cfgs@);
    }
    let nstates = cfgs.cfgs.len();
    let mut decls_text = String::new();
    let mut i: usize = 0;
    while i < nstates
        invariant
            i <= nstates,
            nstates == cfgs.cfgs@.len(),
            spec_decl_lines(cfgs@.cfgs, i as int) == Ok::<Seq<char>, CompileError>(decls_text@),
        decreases nstates - i,
    {
        let st = &cfgs.cfgs[i];
        proof {
            crate::cfg::lemma_insts_view(st.insts@);
        }
        let ghost iv = crate::cfg::insts_view(st.insts@);
        let ninsts = st.insts.len();
        let mut state_lines = String::new();
        let mut j: usize = 0;
        while j < ninsts
            invariant
                j <= ninsts,
                ninsts == st.insts@.len(),
                spec_state_decl_lines(iv, j as int) == Ok::<Seq<char>, CompileError>(
                    state_lines@,
                ),
            decreases ninsts - j,
        {
            let line = match &st.insts[j] {
                crate::cfg::Inst::Stmt(stmt) => {
                    match generate_decl(stmt, &tbs) {
                        Ok(line) => line,
                        Err(e) => {
                            proof {
                                lemma_state_decl_lines_err(iv, j + 1);
                                lemma_decl_lines_err(cfgs@.cfgs, i + 1);
                            }
                            return Err(e);
                        },
                    }
                },
            };
            let ghost pre = state_lines@;
            if !line.as_str().is_empty() {
                state_lines.append("\t");
                state_lines.append(line.as_str());
                state_lines.append("\n");
                proof {
                    assert(state_lines@ =~= pre + ("\t"@ + line@ + "\n"@));
                }
            } else {
                proof {
                    assert(state_lines@ =~= pre + Seq::<char>::empty());
                }
            }
            j = j + 1;
        }
        decls_text.append(state_lines.as_str());
        i = i + 1;
    }
    let mut blocks_text = String::new();
    let mut i2: usize = 0;
    while i2 < nstates
        invariant
            i2 <= nstates,
            spec_state_blocks(cfgs@.cfgs, i2 as int) == Ok::<Seq<char>, CompileError>(
                blocks_text@,
            ),
        decreases nstates - i2,
    {
        let st = &cfgs.cfgs[i2];
        if st.scope.label == Structure::State {
            proof {
                crate::cfg::lemma_transitions_view(st.next.trans@);
            }
            let ghost tv = st.next@;
            let ntrans = st.next.trans.len();
            let mut tl = String::new();
            let mut j: usize = 0;
            while j < ntrans
                invariant
                    j <= ntrans,
                    ntrans == st.next.trans@.len(),
                    spec_transition_lines(tv, j as int) == Ok::<Seq<char>, CompileError>(tl@),
                decreases ntrans - j,
            {
                let tran = &st.next.trans[j];
                tl.append("\t\tfsm.transition @");
                tl.append(tran.target.as_str());
                tl.append(" ");
                match &tran.guards {
                    Some(gs) => {
                        match parse_guards(gs) {
                            Ok(g) => {
                                tl.append(g.as_str());
                            },
                            Err(e) => {
                                proof {
                                    lemma_transition_lines_err(tv, j + 1);
                                    lemma_state_blocks_err(cfgs@.cfgs, i2 + 1);
                                }
                                return Err(e);
                            },
                        }
                    },
                    None => {},
                }
                match &tran.actions {
                    Some(acts) => {
                        match generate_actions(acts) {
                            Ok(a) => {
                                tl.append(a.as_str());
                            },
                            Err(e) => {
                                proof {
                                    lemma_transition_lines_err(tv, j + 1);
                                    lemma_state_blocks_err(cfgs@.cfgs, i2 + 1);
                                }
                                return Err(e);
                            },
                        }
                    },
                    None => {
                        tl.append("\n");
                    },
                }
                j = j + 1;
            }
            blocks_text.append("\tfsm.state @");
            blocks_text.append(st.scope.name.as_str());
            blocks_text.append(" transitions {\n");
            blocks_text.append(tl.as_str());
            blocks_text.append("\n\t}\n\n");
        }
        i2 = i2 + 1;
    }
    let mut out = String::from_str("fsm.machine @");
    out.append(cfgs.fsm_name.as_str());
    out.append("(%arg0: i1, %arg1: i1) attributes {initialState = \"");
    out.append(cfgs.entry.as_str());
    out.append("\"}");
    out.append(" {\n");
    out.append(decls_text.as_str());
    out.append(blocks_text.as_str());
    out.append("}\n");
    Ok(out)
}

} // verus!
