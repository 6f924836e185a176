//! Laws of evaluation, stated over the models and proved once for all
//! programs.

use crate::parser::ast::{SpecExpr, SpecFunction, SpecParam, SpecProgram, SpecStmt, SpecTerm, Type};
use crate::vm::block::{exec_nested, exec_stmt, exec_stmts, Outcome};
use crate::vm::error::SpecError;
use crate::vm::expression::{eval_expr, literal_value};
use crate::vm::function::{bind_params, invoke};
use crate::vm::scope::{assign, declare, innermost_binding, lemma_innermost_binding, lookup, Layer};
use crate::vm::value::SpecValue;
use crate::vm::{registry, run_program};
use vstd::prelude::*;

verus! {

/// The failures that evaluating an expression can end in.
pub open spec fn is_expression_failure(error: SpecError) -> bool {
    error is UndefinedVariable || error is OperatorTypeError
}

/// The failures that executing statements can end in.
pub open spec fn is_statement_failure(error: SpecError) -> bool {
    is_expression_failure(error) || error is ShadowError || error is TypeMismatch
}

/// The failures that invoking a function can end in.
pub open spec fn is_invocation_failure(error: SpecError) -> bool {
    is_statement_failure(error) || error is ArityMismatch || error is ParamTypeMismatch
        || error is MissingReturnType || error is ReturnTypeMismatch || error is ExpectedReturn
}

/// A literal evaluates to its own value, whatever the layers hold.
pub proof fn lemma_literal_evaluates_to_itself(term: SpecTerm, layers: Seq<Layer>)
    requires
        !(term is Variable),
    ensures
        literal_value(term) is Some,
        eval_expr(SpecExpr::Term(term), layers) == Ok::<SpecValue, SpecError>(
            literal_value(term).unwrap(),
        ),
{
}

/// An expression fails only on an unbound variable or on operands that
/// its operator is not defined on.
pub proof fn lemma_expression_failures(expr: SpecExpr, layers: Seq<Layer>)
    ensures
        eval_expr(expr, layers) matches Err(error) ==> is_expression_failure(error),
    decreases expr,
{
    match expr {
        SpecExpr::BinaryOperation { verb, lhs, rhs } => {
            lemma_expression_failures(*lhs, layers);
            lemma_expression_failures(*rhs, layers);
        },
        SpecExpr::Term(_) => {},
    }
}

/// Executing a statement leaves as many layers as it found, and fails only
/// as an expression fails, on a declaration that shadows, or on a value of
/// the wrong type.
pub proof fn lemma_statement_outcome(stmt: SpecStmt, layers: Seq<Layer>)
    requires
        layers.len() >= 1,
    ensures
        exec_stmt(stmt, layers).layers.len() == layers.len(),
        exec_stmt(stmt, layers).result matches Err(error) ==> is_statement_failure(error),
    decreases stmt, 0nat,
{
    match stmt {
        SpecStmt::VariableDefinition { name, declared_type, value } => {
            lemma_expression_failures(value, layers);
        },
        SpecStmt::Assignment { lhs, rhs } => {
            lemma_expression_failures(rhs, layers);
            lemma_innermost_binding(layers, layers.len() as int, lhs);
        },
        SpecStmt::Expression(expr) => {
            lemma_expression_failures(expr, layers);
        },
        SpecStmt::Block(body) => {
            lemma_statements_outcome(body, 0, layers.push(Map::empty()));
        },
        SpecStmt::IfStatement { condition, block } => {
            lemma_expression_failures(condition, layers);
            lemma_statements_outcome(block, 0, layers.push(Map::empty()));
        },
        SpecStmt::Return(expr) => {
            lemma_expression_failures(expr, layers);
        },
    }
}

/// Executing a statement list leaves as many layers as it found, also
/// where it fails, and fails only as a statement fails.
pub proof fn lemma_statements_outcome(stmts: Seq<SpecStmt>, from: int, layers: Seq<Layer>)
    requires
        layers.len() >= 1,
    ensures
        exec_stmts(stmts, from, layers).layers.len() == layers.len(),
        exec_stmts(stmts, from, layers).result matches Err(error) ==> is_statement_failure(error),
    decreases stmts, stmts.len() - from,
{
    if 0 <= from < stmts.len() {
        lemma_statement_outcome(stmts[from], layers);
        let step = exec_stmt(stmts[from], layers);
        if step.result == Ok::<Option<SpecValue>, SpecError>(None) {
            lemma_statements_outcome(stmts, from + 1, step.layers);
        }
    }
}

/// Binding arguments leaves as many layers as it found, and fails only on
/// an argument of the wrong type.
pub proof fn lemma_binding_outcome(
    params: Seq<SpecParam>,
    args: Seq<SpecValue>,
    from: int,
    layers: Seq<Layer>,
)
    requires
        layers.len() >= 1,
    ensures
        bind_params(params, args, from, layers).layers.len() == layers.len(),
        bind_params(params, args, from, layers).result matches Err(error)
            ==> error is ParamTypeMismatch,
        bind_params(params, args, from, layers).result matches Ok(bound) ==> bound is None,
    decreases params.len() - from,
{
    if 0 <= from < params.len() && from < args.len() && args[from].ast_type()
        == params[from].declared_type {
        lemma_binding_outcome(
            params,
            args,
            from + 1,
            declare(layers, params[from].name, args[from]),
        );
    }
}

/// Invoking a function leaves as many layers as it found, also where it
/// fails, and never fails for want of a function.
pub proof fn lemma_invocation_outcome(
    function: SpecFunction,
    layers: Seq<Layer>,
    args: Seq<SpecValue>,
)
    requires
        layers.len() >= 1,
    ensures
        invoke(function, layers, args).layers.len() == layers.len(),
        invoke(function, layers, args).result matches Err(error) ==> is_invocation_failure(error),
{
    lemma_binding_outcome(function.parameters, args, 0, layers);
    let bound = bind_params(function.parameters, args, 0, layers);
    lemma_statements_outcome(function.block, 0, bound.layers);
}

/// An assignment changes one value and nothing else: the layers bind the
/// names they bound before, layer by layer, and every binding but the
/// innermost one of `name` holds the value it held.
pub proof fn lemma_assign_keeps_bindings(layers: Seq<Layer>, name: Seq<char>, value: SpecValue)
    ensures
        assign(layers, name, value).len() == layers.len(),
        forall|i: int|
            0 <= i < layers.len() ==> (#[trigger] assign(layers, name, value)[i]).dom()
                =~= layers[i].dom(),
        forall|i: int, other: Seq<char>|
            0 <= i < layers.len() && layers[i].contains_key(other) && !(other == name && Some(i)
                == innermost_binding(layers, layers.len() as int, name)) ==> #[trigger] assign(
                layers,
                name,
                value,
            )[i][other] == layers[i][other],
        lookup(layers, name) is Some ==> lookup(assign(layers, name, value), name) == Some(value),
        lookup(layers, name) is None ==> assign(layers, name, value) == layers,
{
    lemma_innermost_binding(layers, layers.len() as int, name);
    let after = assign(layers, name, value);
    match innermost_binding(layers, layers.len() as int, name) {
        Some(k) => {
            assert forall|i: int| 0 <= i < layers.len() implies (#[trigger] after[i]).dom()
                =~= layers[i].dom() by {
                if i == k {
                    assert(layers[k].insert(name, value).dom() =~= layers[k].dom());
                }
            }
            lemma_binding_found(after, after.len() as int, name, k);
        },
        None => {},
    }
}

/// The innermost binding is the one at `at` where layer `at` binds the name
/// and no layer further in does.
pub proof fn lemma_binding_found(layers: Seq<Layer>, depth: int, name: Seq<char>, at: int)
    requires
        0 <= at < depth <= layers.len(),
        layers[at].contains_key(name),
        forall|j: int| at < j < depth ==> !(#[trigger] layers[j]).contains_key(name),
    ensures
        innermost_binding(layers, depth, name) == Some(at),
    decreases depth,
{
    if depth - 1 > at {
        lemma_binding_found(layers, depth - 1, name, at);
    }
}

/// What the first `depth` layers bind does not depend on the layers above.
pub proof fn lemma_binding_ignores_inner_layers(
    layers: Seq<Layer>,
    longer: Seq<Layer>,
    depth: int,
    name: Seq<char>,
)
    requires
        0 <= depth <= layers.len() <= longer.len(),
        forall|i: int| 0 <= i < depth ==> layers[i] == longer[i],
    ensures
        innermost_binding(longer, depth, name) == innermost_binding(layers, depth, name),
    decreases depth,
{
    if depth > 0 {
        lemma_binding_ignores_inner_layers(layers, longer, depth - 1, name);
    }
}

/// A fresh layer hides nothing: every variable resolves as it did before
/// the layer was opened.
pub proof fn lemma_fresh_layer_is_transparent(layers: Seq<Layer>, name: Seq<char>)
    ensures
        innermost_binding(layers.push(Map::empty()), layers.len() as int + 1, name)
            == innermost_binding(layers, layers.len() as int, name),
        lookup(layers.push(Map::empty()), name) == lookup(layers, name),
{
    let pushed = layers.push(Map::<Seq<char>, SpecValue>::empty());
    lemma_binding_ignores_inner_layers(layers, pushed, layers.len() as int, name);
    lemma_innermost_binding(layers, layers.len() as int, name);
}

/// An expression has the same value inside a fresh layer as outside.
pub proof fn lemma_eval_in_fresh_layer(expr: SpecExpr, layers: Seq<Layer>)
    ensures
        eval_expr(expr, layers.push(Map::empty())) == eval_expr(expr, layers),
    decreases expr,
{
    match expr {
        SpecExpr::BinaryOperation { verb, lhs, rhs } => {
            lemma_eval_in_fresh_layer(*lhs, layers);
            lemma_eval_in_fresh_layer(*rhs, layers);
        },
        SpecExpr::Term(SpecTerm::Variable(name)) => {
            lemma_fresh_layer_is_transparent(layers, name);
        },
        SpecExpr::Term(_) => {},
    }
}

/// Assignment does not move a variable to the layer that assigns: an
/// assignment inside a nested block changes the binding in the layer that
/// owns it, and the new value is what the variable holds after the block
/// has been left.
pub proof fn lemma_nested_assignment_reaches_owner(
    layers: Seq<Layer>,
    name: Seq<char>,
    rhs: SpecExpr,
    value: SpecValue,
)
    requires
        layers.len() >= 1,
        lookup(layers, name) matches Some(current) && current.ast_type() == value.ast_type(),
        eval_expr(rhs, layers) == Ok::<SpecValue, SpecError>(value),
    ensures
        exec_stmt(SpecStmt::Block(seq![SpecStmt::Assignment { lhs: name, rhs }]), layers)
            == (Outcome { layers: assign(layers, name, value), result: Ok(None) }),
        lookup(assign(layers, name, value), name) == Some(value),
{
    let body = seq![SpecStmt::Assignment { lhs: name, rhs }];
    let pushed = layers.push(Map::<Seq<char>, SpecValue>::empty());
    lemma_fresh_layer_is_transparent(layers, name);
    lemma_eval_in_fresh_layer(rhs, layers);
    lemma_innermost_binding(layers, layers.len() as int, name);
    lemma_assign_keeps_bindings(layers, name, value);
    let step = exec_stmt(body[0], pushed);
    assert(step.layers == assign(pushed, name, value));
    assert(step.result == Ok::<Option<SpecValue>, SpecError>(None));
    assert(exec_stmts(body, 1, step.layers) == step);
    assert(exec_stmts(body, 0, pushed) == step);
    lemma_assign_keeps_bindings(pushed, name, value);
    assert(assign(pushed, name, value).drop_last() =~= assign(layers, name, value));
}

/// What execution may do to the layers it starts from. It opens and
/// closes layers in pairs, so that their number stays. It creates
/// bindings in the innermost layer only. It removes no binding, and a
/// binding keeps the type of the value it was created with.
pub open spec fn evolves_to(before: Seq<Layer>, after: Seq<Layer>) -> bool {
    &&& after.len() == before.len()
    &&& forall|i: int|
        0 <= i < before.len() - 1 ==> (#[trigger] after[i]).dom() =~= before[i].dom()
    &&& forall|i: int, name: Seq<char>|
        0 <= i < before.len() && before[i].contains_key(name) ==> after[i].contains_key(name)
            && (#[trigger] after[i][name]).ast_type() == before[i][name].ast_type()
}

/// Layers that evolve twice have evolved.
pub proof fn lemma_evolves_transitive(first: Seq<Layer>, second: Seq<Layer>, third: Seq<Layer>)
    requires
        evolves_to(first, second),
        evolves_to(second, third),
    ensures
        evolves_to(first, third),
{
    assert forall|i: int, name: Seq<char>|
        0 <= i < first.len() && first[i].contains_key(name) implies third[i].contains_key(name)
        && (#[trigger] third[i][name]).ast_type() == first[i][name].ast_type() by {
        assert(second[i].contains_key(name));
        assert(second[i][name].ast_type() == first[i][name].ast_type());
    }
    assert forall|i: int| 0 <= i < first.len() - 1 implies (#[trigger] third[i]).dom()
        =~= first[i].dom() by {
        assert(second[i].dom() =~= first[i].dom());
    }
}

/// What executed inside a fresh layer leaves no trace of that layer: once
/// it is closed, every layer binds the names it bound before.
pub proof fn lemma_closed_layer_leaves_no_binding(layers: Seq<Layer>, inner: Seq<Layer>)
    requires
        evolves_to(layers.push(Map::empty()), inner),
    ensures
        evolves_to(layers, inner.drop_last()),
        forall|i: int|
            0 <= i < layers.len() ==> (#[trigger] inner.drop_last()[i]).dom() =~= layers[i].dom(),
{
    let pushed = layers.push(Map::<Seq<char>, SpecValue>::empty());
    let closed = inner.drop_last();
    assert forall|i: int| 0 <= i < layers.len() implies (#[trigger] closed[i]).dom()
        =~= layers[i].dom() by {
        assert(inner[i].dom() =~= pushed[i].dom());
    }
    assert forall|i: int, name: Seq<char>|
        0 <= i < layers.len() && layers[i].contains_key(name) implies closed[i].contains_key(name)
        && (#[trigger] closed[i][name]).ast_type() == layers[i][name].ast_type() by {
        assert(pushed[i].contains_key(name));
        assert(inner[i][name].ast_type() == pushed[i][name].ast_type());
    }
}

/// Bindings live and die with their layers. Whatever a statement does,
/// and however it ends, it leaves the layers evolved: a declaration binds
/// in the innermost layer, an assignment changes a value for one of its
/// own type, and a nested block or conditional leaves no binding behind.
pub proof fn lemma_statement_evolves(stmt: SpecStmt, layers: Seq<Layer>)
    requires
        layers.len() >= 1,
    ensures
        evolves_to(layers, exec_stmt(stmt, layers).layers),
        stmt is Block || stmt is IfStatement ==> forall|i: int|
            0 <= i < layers.len() ==> (#[trigger] exec_stmt(stmt, layers).layers[i]).dom()
                =~= layers[i].dom(),
    decreases stmt, 0nat,
{
    match stmt {
        SpecStmt::VariableDefinition { name, declared_type, value } => {
            lemma_innermost_binding(layers, layers.len() as int, name);
        },
        SpecStmt::Assignment { lhs, rhs } => {
            lemma_innermost_binding(layers, layers.len() as int, lhs);
            if let Ok(value) = eval_expr(rhs, layers) {
                lemma_assign_keeps_bindings(layers, lhs, value);
            }
        },
        SpecStmt::Expression(_) => {},
        SpecStmt::Block(body) => {
            let pushed = layers.push(Map::<Seq<char>, SpecValue>::empty());
            lemma_statements_evolve(body, 0, pushed);
            lemma_closed_layer_leaves_no_binding(layers, exec_stmts(body, 0, pushed).layers);
        },
        SpecStmt::IfStatement { condition, block } => {
            let pushed = layers.push(Map::<Seq<char>, SpecValue>::empty());
            lemma_statements_evolve(block, 0, pushed);
            lemma_closed_layer_leaves_no_binding(layers, exec_stmts(block, 0, pushed).layers);
        },
        SpecStmt::Return(_) => {},
    }
}

/// See [`lemma_statement_evolves`].
pub proof fn lemma_statements_evolve(stmts: Seq<SpecStmt>, from: int, layers: Seq<Layer>)
    requires
        layers.len() >= 1,
    ensures
        evolves_to(layers, exec_stmts(stmts, from, layers).layers),
    decreases stmts, stmts.len() - from,
{
    if 0 <= from < stmts.len() {
        lemma_statement_evolves(stmts[from], layers);
        let step = exec_stmt(stmts[from], layers);
        if step.result == Ok::<Option<SpecValue>, SpecError>(None) {
            lemma_statements_evolve(stmts, from + 1, step.layers);
            lemma_evolves_transitive(
                layers,
                step.layers,
                exec_stmts(stmts, from + 1, step.layers).layers,
            );
        }
    }
}

/// Statements behind one that returns or fails are never executed: what
/// follows the list does not change its outcome.
pub proof fn lemma_outcome_ends_execution(
    stmts: Seq<SpecStmt>,
    from: int,
    layers: Seq<Layer>,
    following: Seq<SpecStmt>,
)
    requires
        0 <= from,
        exec_stmts(stmts, from, layers).result != Ok::<Option<SpecValue>, SpecError>(None),
    ensures
        exec_stmts(stmts + following, from, layers) == exec_stmts(stmts, from, layers),
    decreases stmts.len() - from,
{
    if from < stmts.len() {
        assert((stmts + following)[from] == stmts[from]);
        let step = exec_stmt(stmts[from], layers);
        if step.result == Ok::<Option<SpecValue>, SpecError>(None) {
            lemma_outcome_ends_execution(stmts, from + 1, step.layers, following);
        }
    }
}

/// One level of nesting around a statement list: a nested block or, where
/// there is a condition, a conditional; and the statements that follow it
/// on its own level.
pub struct Enclosure {
    pub condition: Option<SpecExpr>,
    pub following: Seq<SpecStmt>,
}

/// `body` inside the given levels of nesting, the outermost first.
pub open spec fn enclose(body: Seq<SpecStmt>, enclosures: Seq<Enclosure>) -> Seq<SpecStmt>
    decreases enclosures.len(),
{
    if enclosures.len() == 0 {
        body
    } else {
        let inner = enclose(body, enclosures.drop_first());
        let nested = match enclosures[0].condition {
            None => SpecStmt::Block(inner),
            Some(condition) => SpecStmt::IfStatement { condition, block: inner },
        };
        seq![nested] + enclosures[0].following
    }
}

/// `layers` below `count` fresh layers.
pub open spec fn under_fresh_layers(layers: Seq<Layer>, count: nat) -> Seq<Layer>
    decreases count,
{
    if count == 0 {
        layers
    } else {
        under_fresh_layers(layers.push(Map::empty()), (count - 1) as nat)
    }
}

/// Opening fresh layers adds that many layers.
pub proof fn lemma_under_fresh_layers_len(layers: Seq<Layer>, count: nat)
    ensures
        under_fresh_layers(layers, count).len() == layers.len() + count,
    decreases count,
{
    if count > 0 {
        lemma_under_fresh_layers_len(layers.push(Map::empty()), (count - 1) as nat);
    }
}

/// A return propagates through any depth of nesting. Where statements,
/// inside any number of nested blocks and of conditionals whose conditions
/// hold, return a value or fail, execution ends there on every level: the
/// statements that follow on the enclosing levels are not executed, the
/// layers opened on the way in are closed, and the outcome of the
/// innermost statements is the outcome of the whole.
pub proof fn lemma_return_propagates(
    body: Seq<SpecStmt>,
    enclosures: Seq<Enclosure>,
    layers: Seq<Layer>,
)
    requires
        layers.len() >= 1,
        forall|i: int|
            0 <= i < enclosures.len() ==> (#[trigger] enclosures[i].condition matches Some(
                condition,
            ) ==> eval_expr(condition, layers) == Ok::<SpecValue, SpecError>(
                SpecValue::Bool(true),
            )),
        exec_stmts(body, 0, under_fresh_layers(layers, enclosures.len())).result != Ok::<
            Option<SpecValue>,
            SpecError,
        >(None),
    ensures
        exec_stmts(enclose(body, enclosures), 0, layers).result == exec_stmts(
            body,
            0,
            under_fresh_layers(layers, enclosures.len()),
        ).result,
        exec_stmts(enclose(body, enclosures), 0, layers).layers == exec_stmts(
            body,
            0,
            under_fresh_layers(layers, enclosures.len()),
        ).layers.take(layers.len() as int),
    decreases enclosures.len(),
{
    let innermost = exec_stmts(body, 0, under_fresh_layers(layers, enclosures.len()));
    if enclosures.len() == 0 {
        lemma_statements_outcome(body, 0, layers);
        assert(innermost.layers.take(layers.len() as int) =~= innermost.layers);
    } else {
        let rest = enclosures.drop_first();
        let pushed = layers.push(Map::<Seq<char>, SpecValue>::empty());
        let inner = enclose(body, rest);
        assert forall|i: int| 0 <= i < rest.len() implies (#[trigger] rest[i].condition matches Some(
            condition,
        ) ==> eval_expr(condition, pushed) == Ok::<SpecValue, SpecError>(
            SpecValue::Bool(true),
        )) by {
            assert(rest[i] == enclosures[i + 1]);
            if let Some(condition) = rest[i].condition {
                lemma_eval_in_fresh_layer(condition, layers);
            }
        }
        lemma_return_propagates(body, rest, pushed);
        let nested = exec_stmts(inner, 0, pushed);
        assert(nested.result == innermost.result);
        assert(nested.layers == innermost.layers.take(pushed.len() as int));
        lemma_under_fresh_layers_len(layers, enclosures.len());
        lemma_statements_outcome(body, 0, under_fresh_layers(layers, enclosures.len()));
        assert(nested.layers.drop_last() =~= innermost.layers.take(layers.len() as int));
        let stmts = enclose(body, enclosures);
        assert(exec_stmt(stmts[0], layers) == exec_nested(inner, layers));
    }
}

/// A call with another number of arguments than the function has
/// parameters is rejected, before anything is bound or executed.
pub proof fn lemma_arity_mismatch_is_rejected(
    function: SpecFunction,
    layers: Seq<Layer>,
    args: Seq<SpecValue>,
)
    requires
        args.len() != function.parameters.len(),
    ensures
        invoke(function, layers, args) == (Outcome { layers, result: Err(SpecError::ArityMismatch) }),
{
}

/// Binding fails at the first argument from `from` on whose type is not
/// that of its parameter, and names that parameter.
pub proof fn lemma_binding_stops_at_mismatch(
    params: Seq<SpecParam>,
    args: Seq<SpecValue>,
    from: int,
    layers: Seq<Layer>,
    at: int,
)
    requires
        0 <= from <= at < params.len() == args.len(),
        args[at].ast_type() != params[at].declared_type,
        forall|j: int| from <= j < at ==> (#[trigger] args[j]).ast_type() == params[j].declared_type,
    ensures
        bind_params(params, args, from, layers).result == Err::<Option<SpecValue>, SpecError>(
            SpecError::ParamTypeMismatch(params[at].name),
        ),
    decreases at - from,
{
    if from < at {
        lemma_binding_stops_at_mismatch(
            params,
            args,
            from + 1,
            declare(layers, params[from].name, args[from]),
            at,
        );
    }
}

/// A call with an argument of another type than its parameter declares is
/// rejected: the failure names the first such parameter, and the body is
/// not executed.
pub proof fn lemma_argument_type_mismatch_is_rejected(
    function: SpecFunction,
    layers: Seq<Layer>,
    args: Seq<SpecValue>,
    at: int,
)
    requires
        args.len() == function.parameters.len(),
        0 <= at < args.len(),
        args[at].ast_type() != function.parameters[at].declared_type,
        forall|j: int|
            0 <= j < at ==> (#[trigger] args[j]).ast_type() == function.parameters[j].declared_type,
    ensures
        invoke(function, layers, args).result == Err::<Option<SpecValue>, SpecError>(
            SpecError::ParamTypeMismatch(function.parameters[at].name),
        ),
{
    lemma_binding_stops_at_mismatch(function.parameters, args, 0, layers, at);
}

/// The registry of the first `count` functions holds a name exactly where
/// one of them has it, and under a name the last of them that has it.
pub proof fn lemma_last_registration_wins(functions: Seq<SpecFunction>, count: int, name: Seq<char>)
    requires
        0 <= count <= functions.len(),
    ensures
        registry(functions, count).contains_key(name) <==> exists|i: int|
            0 <= i < count && (#[trigger] functions[i]).name == name,
        forall|i: int|
            0 <= i < count && (#[trigger] functions[i]).name == name && (forall|j: int|
                i < j < count ==> (#[trigger] functions[j]).name != name) ==> registry(
                functions,
                count,
            )[name] == functions[i],
    decreases count,
{
    if count > 0 {
        lemma_last_registration_wins(functions, count - 1, name);
        if functions[count - 1].name != name {
            assert forall|i: int|
                0 <= i < count && (#[trigger] functions[i]).name == name && (forall|j: int|
                    i < j < count ==> (#[trigger] functions[j]).name != name) implies registry(
                functions,
                count,
            )[name] == functions[i] by {
                assert(i < count - 1);
            }
        }
    }
}

/// A program fails for want of `main` exactly where none of its functions
/// has that name.
pub proof fn lemma_main_is_required(program: SpecProgram)
    ensures
        run_program(program) == Err::<i32, SpecError>(SpecError::NoMainFunction) <==> forall|i: int|
            0 <= i < program.nodes.len() ==> (#[trigger] program.nodes[i]).name != "main"@,
{
    let functions = registry(program.nodes, program.nodes.len() as int);
    lemma_last_registration_wins(program.nodes, program.nodes.len() as int, "main"@);
    if functions.contains_key("main"@) {
        lemma_invocation_outcome(functions["main"@], seq![Map::empty()], Seq::empty());
    }
}

/// A `main` that is not declared to return an integer never yields an exit
/// code: where the call itself succeeds, the program fails with
/// [`SpecError::InvalidMainSignature`].
pub proof fn lemma_main_must_return_int(program: SpecProgram)
    requires
        registry(program.nodes, program.nodes.len() as int).contains_key("main"@),
        registry(program.nodes, program.nodes.len() as int)["main"@].return_type != Some(Type::Int),
    ensures
        run_program(program) is Err,
        invoke(
            registry(program.nodes, program.nodes.len() as int)["main"@],
            seq![Map::empty()],
            Seq::empty(),
        ).result is Ok ==> run_program(program) == Err::<i32, SpecError>(
            SpecError::InvalidMainSignature,
        ),
{
}

} // verus!
