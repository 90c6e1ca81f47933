//! What running a program means: the states of a run, the step from one to
//! the next, and what holds of every state. The evaluator is proved to take
//! these steps.
use vstd::prelude::*;
use crate::environment::bound;
use crate::environment::chained;
use crate::environment::lookup;
use crate::environment::resolve;
use crate::environment::undefined_message;
use crate::environment::ScopeView;
use crate::error::error_at;
use crate::error::ErrorKind;
use crate::error::ErrorView;
use crate::expr::Expr;
use crate::expr::LogicalExpr;
use crate::literal::Value;
use crate::number::Number;
use crate::operators::applied;
use crate::operators::decides;
use crate::operators::unary_applied;
use crate::operators::AppliedView;
use crate::operators::Arithmetic;
use crate::stmt::IfStmt;
use crate::stmt::Stmt;
use crate::stmt::WhileStmt;
use crate::token::Token;

verus! {

/// One piece of work that is still to be done. The frames of a run form a
/// stack; the last one is done next.
pub enum FrameView {
    /// Run a statement.
    Execute(Stmt),
    /// Run the statements from `next` on, one after the other.
    Sequence { statements: Seq<Stmt>, next: nat },
    /// Leave a block: drop its scope and go back to scope `previous`.
    EndBlock { previous: nat },
    /// A loop that is running; on top, it is about to test its condition.
    Loop(WhileStmt),
    /// Drop the value of an expression statement.
    Discard,
    /// Print the value.
    Print,
    /// Bind the value to a new variable.
    Define(Token),
    /// Choose a branch of an `if` by the value of its condition.
    Branch(IfStmt),
    /// Go round the loop once more, or leave it, by the value of its
    /// condition.
    Test(WhileStmt),
    /// Evaluate an expression.
    Evaluate(Expr),
    /// Assign the value to a variable.
    Assign(Token),
    /// Apply a binary operator to the two values.
    Apply(Token),
    /// Take the left operand of `and` or `or` as the result, or evaluate
    /// the right one.
    Decide(LogicalExpr),
    /// Apply a unary operator to the value.
    Unary(Token),
}

/// What the run waits for from the host.
pub enum Pending {
    /// Nothing: the run can take its next step.
    Nothing,
    /// The number that a `Compute` signal asked for.
    Number,
    /// The text that a `Format` signal asked for, to be joined with `other`:
    /// before it if `number_first`, else after it.
    Text { other: Seq<char>, number_first: bool },
    /// The text that a `Format` signal asked for, to be printed.
    Printing,
}

/// What a step asks of the host.
pub enum Signal {
    /// Nothing.
    Continue,
    /// Write the text and a line feed to the output.
    Print(Seq<char>),
    /// Compute `left operation right` and supply the number.
    Compute { operation: Arithmetic, left: Number, right: Number },
    /// Write the number in decimal and supply the text.
    Format(Number),
    /// The program has run to its end.
    Finished,
    /// The program stopped at a runtime error.
    Failed(ErrorView),
}

/// The state of a run.
pub struct Machine {
    /// The work still to be done.
    pub control: Seq<FrameView>,
    /// The values of the expressions evaluated and not yet used.
    pub values: Seq<Value>,
    /// All scopes.
    pub scopes: Seq<ScopeView>,
    /// The index of the scope in which the program runs at this moment.
    pub current: nat,
    /// How many loops the program is inside of.
    pub nest: nat,
    /// What the run waits for.
    pub pending: Pending,
    /// The scope in which the run began.
    pub base: nat,
    /// How many scopes there were when the run began.
    pub floor: nat,
}

/// A state and what to ask of the host on the way to it.
pub struct Outcome {
    pub machine: Machine,
    pub signal: Signal,
}

impl Machine {
    /// With `frame` as the next piece of work.
    pub open spec fn push(self, frame: FrameView) -> Machine {
        Machine { control: self.control.push(frame), ..self }
    }

    /// With `value` as the newest value.
    pub open spec fn push_value(self, value: Value) -> Machine {
        Machine { values: self.values.push(value), ..self }
    }

    /// Without the newest value.
    pub open spec fn drop_value(self) -> Machine {
        Machine { values: self.values.drop_last(), ..self }
    }

    /// With `name` bound to `value` in scope `scope`.
    pub open spec fn bind(self, scope: nat, name: Seq<char>, value: Value) -> Machine {
        Machine { scopes: bound(self.scopes, scope, name, value), ..self }
    }

    /// Going on without a word to the host.
    pub open spec fn quiet(self) -> Outcome {
        Outcome { machine: self, signal: Signal::Continue }
    }

    /// Stopped at a runtime error: no work and no value is left, the scopes
    /// and the current scope are those of the start of the run, and the
    /// program is inside no loop.
    pub open spec fn fail(self, error: ErrorView) -> Outcome {
        Outcome { machine: self.stopped(), signal: Signal::Failed(error) }
    }

    /// The state in which a run is given up.
    pub open spec fn stopped(self) -> Machine {
        Machine {
            control: Seq::empty(),
            values: Seq::empty(),
            scopes: self.scopes.take(self.floor as int),
            current: self.base,
            nest: 0,
            pending: Pending::Nothing,
            base: self.base,
            floor: self.floor,
        }
    }

    /// Out of the innermost loop: the work up to and including that of the
    /// loop is dropped, each block on the way is left, and the program is
    /// inside one loop less.
    pub open spec fn unwound(self) -> Machine
        decreases self.control.len(),
    {
        if self.control.len() == 0 {
            self
        } else {
            let below = Machine { control: self.control.drop_last(), ..self };
            match self.control.last() {
                FrameView::Loop(_) => Machine { nest: (self.nest - 1) as nat, ..below },
                FrameView::EndBlock { previous } => Machine {
                    scopes: self.scopes.drop_last(),
                    current: previous,
                    ..below
                }.unwound(),
                _ => below.unwound(),
            }
        }
    }
}

/// A runtime error at `token`.
pub open spec fn runtime_error(token: Token, message: Seq<char>) -> ErrorView {
    error_at(ErrorKind::Runtime, token, message)
}

/// Starting on a statement.
pub open spec fn execute(m: Machine, statement: Stmt) -> Outcome {
    match statement {
        Stmt::Expression(e) => m.push(FrameView::Discard).push(
            FrameView::Evaluate(e.expression),
        ).quiet(),
        Stmt::Print(p) => m.push(FrameView::Print).push(FrameView::Evaluate(p.expression)).quiet(),
        Stmt::Var(v) => match v.initializer {
            Some(init) => m.push(FrameView::Define(v.name)).push(FrameView::Evaluate(init)).quiet(),
            None => m.bind(m.current, v.name.lexeme@, Value::Nil).quiet(),
        },
        Stmt::Block(b) => Machine {
            scopes: m.scopes.push(
                ScopeView { bindings: Map::empty(), enclosing: Some(m.current) },
            ),
            current: m.scopes.len(),
            ..m
        }.push(FrameView::EndBlock { previous: m.current }).push(
            FrameView::Sequence { statements: b.statements@, next: 0 },
        ).quiet(),
        Stmt::If(i) => m.push(FrameView::Branch(i)).push(FrameView::Evaluate(i.condition)).quiet(),
        Stmt::While(w) => Machine { nest: m.nest + 1, ..m }.push(FrameView::Loop(w)).quiet(),
        Stmt::Break(b) => if m.nest == 0 {
            m.fail(runtime_error(b.token, "break outside of while/for loop"@))
        } else {
            m.unwound().quiet()
        },
    }
}

/// Starting on an expression.
pub open spec fn evaluate(m: Machine, expression: Expr) -> Outcome {
    match expression {
        Expr::Literal(l) => m.push_value(
            match l.value {
                Some(v) => v@,
                None => Value::Nil,
            },
        ).quiet(),
        Expr::Grouping(g) => m.push(FrameView::Evaluate(*g.expression)).quiet(),
        Expr::Variable(v) => match lookup(m.scopes, m.current, v.name.lexeme@) {
            Some(value) => m.push_value(value).quiet(),
            None => m.fail(runtime_error(v.name, undefined_message(v.name.lexeme@))),
        },
        Expr::Assign(a) => m.push(FrameView::Assign(a.name)).push(
            FrameView::Evaluate(*a.value),
        ).quiet(),
        Expr::Logical(l) => m.push(FrameView::Decide(l)).push(FrameView::Evaluate(*l.left)).quiet(),
        Expr::Unary(u) => m.push(FrameView::Unary(u.operator)).push(
            FrameView::Evaluate(*u.right),
        ).quiet(),
        Expr::Binary(b) => m.push(FrameView::Apply(b.operator)).push(
            FrameView::Evaluate(*b.right),
        ).push(FrameView::Evaluate(*b.left)).quiet(),
    }
}

/// Applying the binary operator `operator` to the two newest values, the
/// left operand below the right one.
pub open spec fn apply(m: Machine, operator: Token) -> Outcome {
    let right = m.values.last();
    let left = m.values.drop_last().last();
    let rest = m.drop_value().drop_value();
    match applied(operator.token_type, left, right) {
        AppliedView::Value(v) => rest.push_value(v).quiet(),
        AppliedView::Compute { operation, left, right } => Outcome {
            machine: Machine { pending: Pending::Number, ..rest },
            signal: Signal::Compute { operation, left, right },
        },
        AppliedView::Join { text, number, number_first } => Outcome {
            machine: Machine { pending: Pending::Text { other: text, number_first }, ..rest },
            signal: Signal::Format(number),
        },
        AppliedView::Illegal => m.fail(runtime_error(operator, "Illegal expression."@)),
    }
}

/// How `print` writes a value that is no number: `nil`, `true`, `false`,
/// or a string as it is. How a number is written is for the host to say.
pub open spec fn shown(value: Value) -> Seq<char> {
    match value {
        Value::Nil => "nil"@,
        Value::Bool(b) => if b {
            "true"@
        } else {
            "false"@
        },
        Value::Text(s) => s,
        Value::Number(_) => Seq::empty(),
    }
}

/// Going on with the frame `frame`, which was the last of the work.
pub open spec fn resume(m: Machine, frame: FrameView) -> Outcome {
    match frame {
        FrameView::Execute(s) => execute(m, s),
        FrameView::Sequence { statements, next } => if next < statements.len() {
            m.push(FrameView::Sequence { statements, next: next + 1 }).push(
                FrameView::Execute(statements[next as int]),
            ).quiet()
        } else {
            m.quiet()
        },
        FrameView::EndBlock { previous } => Machine {
            scopes: m.scopes.drop_last(),
            current: previous,
            ..m
        }.quiet(),
        FrameView::Loop(w) => m.push(FrameView::Loop(w)).push(FrameView::Test(w)).push(
            FrameView::Evaluate(w.condition),
        ).quiet(),
        FrameView::Discard => m.drop_value().quiet(),
        FrameView::Print => match m.values.last() {
            Value::Number(n) => Outcome {
                machine: Machine { pending: Pending::Printing, ..m.drop_value() },
                signal: Signal::Format(n),
            },
            value => Outcome { machine: m.drop_value(), signal: Signal::Print(shown(value)) },
        },
        FrameView::Define(name) => m.drop_value().bind(
            m.current,
            name.lexeme@,
            m.values.last(),
        ).quiet(),
        FrameView::Branch(i) => if m.values.last().is_truthy() {
            m.drop_value().push(FrameView::Execute(*i.then_branch)).quiet()
        } else {
            match i.else_branch {
                Some(e) => m.drop_value().push(FrameView::Execute(*e)).quiet(),
                None => m.drop_value().quiet(),
            }
        },
        FrameView::Test(w) => if m.values.last().is_truthy() {
            m.drop_value().push(FrameView::Execute(*w.body)).quiet()
        } else {
            m.drop_value().unwound().quiet()
        },
        FrameView::Evaluate(e) => evaluate(m, e),
        FrameView::Assign(name) => match resolve(m.scopes, m.current, name.lexeme@) {
            Some(holder) => m.bind(holder, name.lexeme@, m.values.last()).quiet(),
            None => m.fail(runtime_error(name, undefined_message(name.lexeme@))),
        },
        FrameView::Apply(operator) => apply(m, operator),
        FrameView::Decide(l) => if decides(l.operator.token_type, m.values.last()) {
            m.quiet()
        } else {
            m.drop_value().push(FrameView::Evaluate(*l.right)).quiet()
        },
        FrameView::Unary(operator) => match unary_applied(operator.token_type, m.values.last()) {
            Some(v) => m.drop_value().push_value(v).quiet(),
            None => m.fail(runtime_error(operator, "Unreachable according to Nystrom"@)),
        },
    }
}

/// One step of a run that waits for nothing: the last frame is taken off
/// and gone on with; where no work is left, the run is finished.
pub open spec fn next(m: Machine) -> Outcome {
    if m.control.len() == 0 {
        Outcome { machine: m, signal: Signal::Finished }
    } else {
        resume(Machine { control: m.control.drop_last(), ..m }, m.control.last())
    }
}

/// The state after the host has supplied the number it was asked for.
pub open spec fn with_number(m: Machine, value: Number) -> Machine {
    Machine { pending: Pending::Nothing, ..m }.push_value(Value::Number(value))
}

/// What becomes of the text that the host was asked for. Where a string
/// waited for it, the two are joined to the newest value. Where a `print`
/// waited for it, the host is asked to print it.
pub open spec fn with_text(m: Machine, text: Seq<char>) -> Outcome {
    match m.pending {
        Pending::Text { other, number_first } => Machine {
            pending: Pending::Nothing,
            ..m
        }.push_value(
            Value::Text(
                if number_first {
                    text + other
                } else {
                    other + text
                },
            ),
        ).quiet(),
        Pending::Printing => Outcome {
            machine: Machine { pending: Pending::Nothing, ..m },
            signal: Signal::Print(text),
        },
        _ => m.quiet(),
    }
}

/// The state in which a run of `statements` begins.
pub open spec fn begun(scopes: Seq<ScopeView>, current: nat, statements: Seq<Stmt>) -> Machine {
    Machine {
        control: seq![FrameView::Sequence { statements, next: 0 }],
        values: Seq::empty(),
        scopes,
        current,
        nest: 0,
        pending: Pending::Nothing,
        base: current,
        floor: scopes.len(),
    }
}


// ---------------------------------------------------------------------------
// What holds of every state of a run
// ---------------------------------------------------------------------------
/// The frames that stand for statements still to come: they wait for no
/// value.
pub open spec fn is_base(frame: FrameView) -> bool {
    frame is Sequence || frame is EndBlock || frame is Loop
}

/// The frames that end a statement by using up the value of its expression.
pub open spec fn is_settle(frame: FrameView) -> bool {
    frame is Discard || frame is Print || frame is Define || frame is Branch || frame is Test
}

/// How many values a frame of an expression takes. Each gives one.
pub open spec fn takes(frame: FrameView) -> nat {
    match frame {
        FrameView::Assign(_) => 1,
        FrameView::Apply(_) => 2,
        FrameView::Decide(_) => 1,
        FrameView::Unary(_) => 1,
        _ => 0,
    }
}

/// All of the work is statements still to come.
pub open spec fn all_base(control: Seq<FrameView>) -> bool {
    forall|i: int| 0 <= i < control.len() ==> is_base(#[trigger] control[i])
}

/// The work fits `n` values that are there or awaited: statements still to
/// come lie at the bottom and wait for none; above them lies at most one
/// statement that has begun; if it waits for the value of an expression,
/// the frames of that expression lie above it, and each finds the values
/// it takes. A loop's test lies right above the loop.
pub open spec fn shape(control: Seq<FrameView>, n: nat) -> bool
    decreases control.len(),
{
    if control.len() == 0 {
        n == 0
    } else {
        let frame = control.last();
        let below = control.drop_last();
        if is_base(frame) || frame is Execute {
            n == 0 && all_base(below)
        } else if is_settle(frame) {
            n == 1 && all_base(below) && (frame is Test ==> below.len() > 0 && below.last() is Loop)
        } else {
            &&& n >= takes(frame)
            &&& below.len() > 0
            &&& !is_base(below.last())
            &&& !(below.last() is Execute)
            &&& shape(below, (n - takes(frame) + 1) as nat)
        }
    }
}

/// How many loops are running.
pub open spec fn loops(control: Seq<FrameView>) -> nat
    decreases control.len(),
{
    if control.len() == 0 {
        0
    } else {
        loops(control.drop_last()) + if control.last() is Loop {
            1nat
        } else {
            0nat
        }
    }
}

/// How many blocks are open.
pub open spec fn blocks(control: Seq<FrameView>) -> nat
    decreases control.len(),
{
    if control.len() == 0 {
        0
    } else {
        blocks(control.drop_last()) + if control.last() is EndBlock {
            1nat
        } else {
            0nat
        }
    }
}

/// The scope of a program that is inside `depth` blocks: that of the start
/// of the run, or the scope of the innermost block. The scopes of the open
/// blocks are the newest scopes, the innermost last.
pub open spec fn scope_for(depth: nat, base: nat, floor: nat) -> nat {
    if depth == 0 {
        base
    } else {
        (floor + depth - 1) as nat
    }
}

/// Every open block goes back, when it is left, to the scope from which
/// it was entered.
pub open spec fn blocks_ok(control: Seq<FrameView>, base: nat, floor: nat) -> bool
    decreases control.len(),
{
    if control.len() == 0 {
        true
    } else {
        &&& blocks_ok(control.drop_last(), base, floor)
        &&& match control.last() {
            FrameView::EndBlock { previous } => previous == scope_for(
                blocks(control.drop_last()),
                base,
                floor,
            ),
            _ => true,
        }
    }
}

impl Machine {
    /// How many values the work counts on: those there, and the one that
    /// the host is asked for.
    pub open spec fn due(self) -> nat {
        self.values.len() + if self.pending is Number || self.pending is Text {
            1nat
        } else {
            0nat
        }
    }

    /// What holds of every state of a run: the scope chain is sound; each
    /// open block has its scope, and the current scope is that of the
    /// innermost open block; the loop depth is the number of running loops;
    /// and the work fits the values.
    pub open spec fn wf(self) -> bool {
        self.grounded() && shape(self.control, self.due())
    }

    /// The part of soundness that speaks of scopes and loops.
    pub open spec fn grounded(self) -> bool {
        &&& chained(self.scopes)
        &&& self.base < self.floor
        &&& self.scopes.len() == self.floor + blocks(self.control)
        &&& self.current == scope_for(blocks(self.control), self.base, self.floor)
        &&& blocks_ok(self.control, self.base, self.floor)
        &&& self.nest == loops(self.control)
    }
}

/// What a frame on top adds to the counts of the frames below it.
pub proof fn lemma_pushed(control: Seq<FrameView>, frame: FrameView, base: nat, floor: nat)
    ensures
        control.push(frame).drop_last() == control,
        control.push(frame).last() == frame,
        loops(control.push(frame)) == loops(control) + if frame is Loop {
            1nat
        } else {
            0nat
        },
        blocks(control.push(frame)) == blocks(control) + if frame is EndBlock {
            1nat
        } else {
            0nat
        },
        blocks_ok(control.push(frame), base, floor) == (blocks_ok(control, base, floor) && (
        frame is EndBlock ==> frame->previous == scope_for(blocks(control), base, floor))),
{
    assert(control.push(frame).drop_last() =~= control);
}

/// Statements still to come wait for no value.
pub proof fn lemma_base_shape(control: Seq<FrameView>)
    requires
        all_base(control),
    ensures
        shape(control, 0),
{
    if control.len() > 0 {
        assert(is_base(control[control.len() - 1]));
    }
}

/// There are no more running loops, and no more open blocks, than frames.
pub proof fn lemma_counts_bounded(control: Seq<FrameView>)
    ensures
        loops(control) <= control.len(),
        blocks(control) <= control.len(),
    decreases control.len(),
{
    if control.len() > 0 {
        lemma_counts_bounded(control.drop_last());
    }
}

/// Leaving the innermost loop keeps a state sound and takes the program
/// out of exactly one loop.
pub proof fn lemma_unwound(m: Machine)
    requires
        m.grounded(),
        all_base(m.control),
        m.due() == 0,
    ensures
        m.unwound().wf(),
        all_base(m.unwound().control),
        m.unwound().values == m.values,
        m.unwound().pending == m.pending,
        m.nest > 0 ==> m.unwound().nest == m.nest - 1,
        m.unwound().base == m.base,
        m.unwound().floor == m.floor,
    decreases m.control.len(),
{
    if m.control.len() > 0 {
        let below = Machine { control: m.control.drop_last(), ..m };
        assert(all_base(below.control));
        lemma_base_shape(below.control);
        assert(is_base(m.control[m.control.len() - 1]));
        match m.control.last() {
            FrameView::Loop(_) => {},
            FrameView::EndBlock { previous } => {
                let left = Machine { scopes: m.scopes.drop_last(), current: previous, ..below };
                assert(left.grounded());
                lemma_unwound(left);
            },
            _ => {
                lemma_unwound(below);
            },
        }
    }
}


/// A run that is given up is left in a sound state.
pub proof fn lemma_stopped_wf(m: Machine)
    requires
        chained(m.scopes),
        m.base < m.floor <= m.scopes.len(),
    ensures
        m.stopped().wf(),
        chained(m.stopped().scopes),
        m.stopped().scopes.len() == m.floor,
{
    lemma_fail_keeps_wf(m, arbitrary());
}

proof fn lemma_fail_keeps_wf(m: Machine, error: ErrorView)
    requires
        chained(m.scopes),
        m.base < m.floor <= m.scopes.len(),
    ensures
        m.fail(error).machine.wf(),
        m.stopped().wf(),
{
    let stopped = m.stopped();
    assert(stopped.scopes.len() == m.floor);
    assert(chained(stopped.scopes));
}

proof fn lemma_execute_keeps_wf(m: Machine, statement: Stmt)
    requires
        m.grounded(),
        all_base(m.control),
        m.due() == 0,
    ensures
        execute(m, statement).machine.wf(),
        execute(m, statement).machine.base == m.base,
        execute(m, statement).machine.floor == m.floor,
{
    reveal_with_fuel(shape, 4);
    let c = m.control;
    lemma_base_shape(c);
    lemma_fail_keeps_wf(m, arbitrary());
    match statement {
        Stmt::Expression(e) => {
            lemma_pushed(c, FrameView::Discard, m.base, m.floor);
            lemma_pushed(c.push(FrameView::Discard), FrameView::Evaluate(e.expression), m.base, m.floor);
        },
        Stmt::Print(p) => {
            lemma_pushed(c, FrameView::Print, m.base, m.floor);
            lemma_pushed(c.push(FrameView::Print), FrameView::Evaluate(p.expression), m.base, m.floor);
        },
        Stmt::Var(v) => {
            match v.initializer {
                Some(init) => {
                    lemma_pushed(c, FrameView::Define(v.name), m.base, m.floor);
                    lemma_pushed(
                        c.push(FrameView::Define(v.name)),
                        FrameView::Evaluate(init),
                        m.base,
                        m.floor,
                    );
                        },
                None => {
                    lemma_current_in_range(m);
                        },
            }
        },
        Stmt::Block(b) => {
            let end = FrameView::EndBlock { previous: m.current };
            let run = FrameView::Sequence { statements: b.statements@, next: 0 };
            lemma_pushed(c, end, m.base, m.floor);
            lemma_pushed(c.push(end), run, m.base, m.floor);
            lemma_current_in_range(m);
            let after = execute(m, statement).machine;
            assert(all_base(c.push(end)));
            assert(chained(after.scopes));
        },
        Stmt::If(i) => {
            lemma_pushed(c, FrameView::Branch(i), m.base, m.floor);
            lemma_pushed(c.push(FrameView::Branch(i)), FrameView::Evaluate(i.condition), m.base, m.floor);
        },
        Stmt::While(w) => {
            lemma_pushed(c, FrameView::Loop(w), m.base, m.floor);
        },
        Stmt::Break(b) => {
            if m.nest > 0 {
                lemma_unwound(m);
                lemma_base_shape(m.unwound().control);
            }
        },
    }
}

/// The current scope exists.
pub proof fn lemma_current_in_range(m: Machine)
    requires
        m.grounded(),
    ensures
        m.current < m.scopes.len(),
        m.floor <= m.scopes.len(),
{
}

proof fn lemma_evaluate_keeps_wf(m: Machine, expression: Expr)
    requires
        m.grounded(),
        m.pending is Nothing,
        m.control.len() > 0,
        !is_base(m.control.last()),
        !(m.control.last() is Execute),
        shape(m.control, m.values.len() + 1),
    ensures
        evaluate(m, expression).machine.wf(),
        evaluate(m, expression).machine.base == m.base,
        evaluate(m, expression).machine.floor == m.floor,
{
    reveal_with_fuel(shape, 4);
    let c = m.control;
    lemma_fail_keeps_wf(m, arbitrary());
    lemma_current_in_range(m);
    match expression {
        Expr::Literal(l) => {},
        Expr::Grouping(g) => {
            lemma_pushed(c, FrameView::Evaluate(*g.expression), m.base, m.floor);
        },
        Expr::Variable(v) => {},
        Expr::Assign(a) => {
            lemma_pushed(c, FrameView::Assign(a.name), m.base, m.floor);
            lemma_pushed(c.push(FrameView::Assign(a.name)), FrameView::Evaluate(*a.value), m.base, m.floor);
        },
        Expr::Logical(l) => {
            lemma_pushed(c, FrameView::Decide(l), m.base, m.floor);
            lemma_pushed(c.push(FrameView::Decide(l)), FrameView::Evaluate(*l.left), m.base, m.floor);
        },
        Expr::Unary(u) => {
            lemma_pushed(c, FrameView::Unary(u.operator), m.base, m.floor);
            lemma_pushed(
                c.push(FrameView::Unary(u.operator)),
                FrameView::Evaluate(*u.right),
                m.base,
                m.floor,
            );
        },
        Expr::Binary(b) => {
            let c1 = c.push(FrameView::Apply(b.operator));
            let c2 = c1.push(FrameView::Evaluate(*b.right));
            lemma_pushed(c, FrameView::Apply(b.operator), m.base, m.floor);
            lemma_pushed(c1, FrameView::Evaluate(*b.right), m.base, m.floor);
            lemma_pushed(c2, FrameView::Evaluate(*b.left), m.base, m.floor);
        },
    }
}

/// Every step of a run that waits for nothing keeps the state sound.
pub proof fn lemma_next_keeps_wf(m: Machine)
    requires
        m.wf(),
        m.pending is Nothing,
    ensures
        next(m).machine.wf(),
        next(m).machine.base == m.base,
        next(m).machine.floor == m.floor,
{
    reveal_with_fuel(shape, 4);
    if m.control.len() > 0 {
        let frame = m.control.last();
        let c = m.control.drop_last();
        let rest = Machine { control: c, ..m };
        lemma_pushed(c, frame, m.base, m.floor);
        assert(c.push(frame) =~= m.control);
        lemma_current_in_range(m);
        lemma_fail_keeps_wf(rest, arbitrary());
        match frame {
            FrameView::Execute(s) => {
                lemma_base_shape(c);
                lemma_execute_keeps_wf(rest, s);
            },
            FrameView::Sequence { statements, next } => {
                lemma_base_shape(c);
                if next < statements.len() {
                    let again = FrameView::Sequence { statements, next: next + 1 };
                    lemma_pushed(c, again, m.base, m.floor);
                    lemma_pushed(
                        c.push(again),
                        FrameView::Execute(statements[next as int]),
                        m.base,
                        m.floor,
                    );
                    assert(all_base(c.push(again)));
                }
            },
            FrameView::EndBlock { previous } => {
                lemma_base_shape(c);
            },
            FrameView::Loop(w) => {
                let c1 = c.push(FrameView::Loop(w));
                let c2 = c1.push(FrameView::Test(w));
                lemma_pushed(c, FrameView::Loop(w), m.base, m.floor);
                lemma_pushed(c1, FrameView::Test(w), m.base, m.floor);
                lemma_pushed(c2, FrameView::Evaluate(w.condition), m.base, m.floor);
                assert(all_base(c1));
            },
            FrameView::Discard => {
                lemma_base_shape(c);
            },
            FrameView::Print => {
                lemma_base_shape(c);
            },
            FrameView::Define(name) => {
                lemma_base_shape(c);
            },
            FrameView::Branch(i) => {
                lemma_base_shape(c);
                lemma_pushed(c, FrameView::Execute(*i.then_branch), m.base, m.floor);
                match i.else_branch {
                    Some(e) => {
                        lemma_pushed(c, FrameView::Execute(*e), m.base, m.floor);
                    },
                    None => {},
                }
            },
            FrameView::Test(w) => {
                lemma_base_shape(c);
                lemma_pushed(c, FrameView::Execute(*w.body), m.base, m.floor);
                let dropped = rest.drop_value();
                assert(dropped.grounded());
                lemma_unwound(dropped);
                lemma_base_shape(dropped.unwound().control);
            },
            FrameView::Evaluate(e) => {
                lemma_evaluate_keeps_wf(rest, e);
            },
            FrameView::Assign(name) => {
                match resolve(m.scopes, m.current, name.lexeme@) {
                    Some(holder) => {
                        crate::environment::lemma_resolve_holds(m.scopes, m.current, name.lexeme@);
                    },
                    None => {},
                }
            },
            FrameView::Apply(operator) => {},
            FrameView::Decide(l) => {
                lemma_pushed(c, FrameView::Evaluate(*l.right), m.base, m.floor);
            },
            FrameView::Unary(operator) => {},
        }
    }
}

/// A state stays sound when the host supplies what it was asked for.
pub proof fn lemma_supply_keeps_wf(m: Machine, value: Number, text: Seq<char>)
    requires
        m.wf(),
    ensures
        m.pending is Number ==> with_number(m, value).wf(),
        m.pending is Text || m.pending is Printing ==> with_text(m, text).machine.wf(),
{
    reveal_with_fuel(shape, 4);
}

/// A run begins in a sound state.
pub proof fn lemma_begun_wf(scopes: Seq<ScopeView>, current: nat, statements: Seq<Stmt>)
    requires
        chained(scopes),
        current < scopes.len(),
    ensures
        begun(scopes, current, statements).wf(),
{
    reveal_with_fuel(shape, 4);
    let first = FrameView::Sequence { statements, next: 0 };
    lemma_pushed(Seq::empty(), first, current, scopes.len());
    assert(Seq::<FrameView>::empty().push(first) =~= seq![first]);
}


// ---------------------------------------------------------------------------
// Laws
// ---------------------------------------------------------------------------
/// What the host hands back where a run waits for it.
pub struct Reply {
    pub number: Number,
    pub text: Seq<char>,
}

/// The next state of a run: by a step where the run waits for nothing,
/// else by what the host supplies.
pub open spec fn advance(m: Machine, reply: Reply) -> Machine {
    match m.pending {
        Pending::Nothing => next(m).machine,
        Pending::Number => with_number(m, reply.number),
        _ => with_text(m, reply.text).machine,
    }
}

/// The state that a run reaches from `m` while the host hands back
/// `replies`, one for each move.
pub open spec fn reached(m: Machine, replies: Seq<Reply>) -> Machine
    decreases replies.len(),
{
    if replies.len() == 0 {
        m
    } else {
        advance(reached(m, replies.drop_last()), replies.last())
    }
}

/// Every state of a run is sound, whatever the host hands back: at all
/// times the loop depth is the number of running loops, the current scope
/// is that of the innermost open block, and the work fits the values.
pub proof fn lemma_run_stays_sound(m: Machine, replies: Seq<Reply>)
    requires
        m.wf(),
    ensures
        reached(m, replies).wf(),
        reached(m, replies).base == m.base,
        reached(m, replies).floor == m.floor,
    decreases replies.len(),
{
    if replies.len() > 0 {
        lemma_run_stays_sound(m, replies.drop_last());
        let before = reached(m, replies.drop_last());
        let reply = replies.last();
        match before.pending {
            Pending::Nothing => {
                lemma_next_keeps_wf(before);
            },
            _ => {
                lemma_supply_keeps_wf(before, reply.number, reply.text);
            },
        }
    }
}

/// A block leaves the current scope as it found it, however it ends: in
/// every sound state the current scope is the one set by the number of open
/// blocks, so two states of one run with the same blocks open, such as the
/// state in which a block is entered and any state in which only the work
/// from before the block is left, run in the same scope.
pub proof fn lemma_block_restores_scope(before: Machine, after: Machine)
    requires
        before.wf(),
        after.wf(),
        after.base == before.base,
        after.floor == before.floor,
        blocks(after.control) == blocks(before.control),
    ensures
        after.current == before.current,
        after.scopes.len() == before.scopes.len(),
{
}

/// Whatever happens inside a block, and however it ends: once a run has as
/// many blocks open as before the block was entered, it is in the scope in
/// which it was then, and has the scopes that it had then.
pub proof fn lemma_scope_after_block(m: Machine, replies: Seq<Reply>)
    requires
        m.wf(),
        blocks(reached(m, replies).control) == blocks(m.control),
    ensures
        reached(m, replies).current == m.current,
        reached(m, replies).scopes.len() == m.scopes.len(),
{
    lemma_run_stays_sound(m, replies);
    lemma_block_restores_scope(m, reached(m, replies));
}

/// Whenever a run has no work left, the program is inside no loop and in
/// the scope in which the run began.
pub proof fn lemma_depth_zero_when_done(m: Machine, replies: Seq<Reply>)
    requires
        m.wf(),
        reached(m, replies).control.len() == 0,
    ensures
        reached(m, replies).nest == 0,
        reached(m, replies).current == m.base,
{
    lemma_run_stays_sound(m, replies);
    lemma_settled_when_done(reached(m, replies));
}

/// Entering a block notes the scope to go back to, and leaving it goes back
/// there.
pub proof fn lemma_block_enters_and_leaves(m: Machine, statements: Vec<Stmt>, previous: nat)
    requires
        m.control.len() > 0,
    ensures
        m.control.last() == FrameView::Execute(
            Stmt::Block(crate::stmt::BlockStmt { statements }),
        ) ==> next(m).machine.control == m.control.drop_last().push(
            FrameView::EndBlock { previous: m.current },
        ).push(FrameView::Sequence { statements: statements@, next: 0 }),
        m.control.last() == (FrameView::EndBlock { previous }) ==> next(m).machine.current
            == previous && next(m).machine.control == m.control.drop_last(),
{
}

/// The loop depth is the number of running loops; once no work is left,
/// as after the last step of a run or after a runtime error, it is 0, and
/// the program is back in the scope in which the run began.
pub proof fn lemma_settled_when_done(m: Machine)
    requires
        m.wf(),
        m.control.len() == 0,
    ensures
        m.nest == 0,
        m.current == m.base,
        m.scopes.len() == m.floor,
        m.values.len() == 0,
        m.pending is Nothing || m.pending is Printing,
{
}

/// A step that ends a run, by `Finished` or by `Failed`, leaves no work.
pub proof fn lemma_last_step_leaves_nothing(m: Machine)
    requires
        m.wf(),
        m.pending is Nothing,
        next(m).signal is Finished || next(m).signal is Failed,
    ensures
        next(m).machine.control.len() == 0,
        next(m).machine.nest == 0,
        next(m).machine.current == m.base,
{
    lemma_next_keeps_wf(m);
}

/// `and` and `or` short-circuit: where the left operand decides, the step
/// that looks at it keeps it as the result and puts no work on the stack,
/// so the right operand is never evaluated.
pub proof fn lemma_short_circuit(m: Machine, logical: LogicalExpr)
    requires
        m.control.len() > 0,
        m.control.last() == FrameView::Decide(logical),
        decides(logical.operator.token_type, m.values.last()),
    ensures
        next(m) == (Machine { control: m.control.drop_last(), ..m }).quiet(),
{
}

/// `false` decides an `and`, `true` decides an `or`, and so does every
/// other falsey or truthy value.
pub proof fn lemma_deciding_operands(left: Value)
    ensures
        decides(crate::token_type::TokenType::And, Value::Bool(false)),
        decides(crate::token_type::TokenType::Or, Value::Bool(true)),
        decides(crate::token_type::TokenType::And, left) <==> !left.is_truthy(),
        decides(crate::token_type::TokenType::Or, left) <==> left.is_truthy(),
{
}

/// The state after `n` steps, none of which asks the host for a value.
pub open spec fn after_steps(m: Machine, n: nat) -> Machine
    decreases n,
{
    if n == 0 {
        m
    } else {
        after_steps(next(m).machine, (n - 1) as nat)
    }
}

/// `false and <right>` is `false` whatever `<right>` is: three steps after
/// the expression is taken up, its value is there, nothing of `<right>` was
/// done, and nothing else has changed.
pub proof fn lemma_false_and_skips_right(m: Machine, logical: LogicalExpr)
    requires
        m.control.len() > 0,
        m.control.last() == FrameView::Evaluate(Expr::Logical(logical)),
        *logical.left == crate::grammar::literal_expr(Some(crate::literal::Literal::Bool(false))),
        logical.operator.token_type == crate::token_type::TokenType::And,
    ensures
        after_steps(m, 3) == (Machine { control: m.control.drop_last(), ..m }).push_value(
            Value::Bool(false),
        ),
{
    reveal_with_fuel(after_steps, 4);
    let rest = Machine { control: m.control.drop_last(), ..m };
    let m1 = next(m).machine;
    assert(m1 == rest.push(FrameView::Decide(logical)).push(FrameView::Evaluate(*logical.left)));
    assert(m1.control.drop_last() =~= rest.control.push(FrameView::Decide(logical)));
    let m2 = next(m1).machine;
    assert(m2 == rest.push(FrameView::Decide(logical)).push_value(Value::Bool(false)));
    assert(m2.control.drop_last() =~= rest.control);
    let m3 = next(m2).machine;
    assert(m3 == rest.push_value(Value::Bool(false)));
}

/// `true or <right>` is `true` whatever `<right>` is.
pub proof fn lemma_true_or_skips_right(m: Machine, logical: LogicalExpr)
    requires
        m.control.len() > 0,
        m.control.last() == FrameView::Evaluate(Expr::Logical(logical)),
        *logical.left == crate::grammar::literal_expr(Some(crate::literal::Literal::Bool(true))),
        logical.operator.token_type == crate::token_type::TokenType::Or,
    ensures
        after_steps(m, 3) == (Machine { control: m.control.drop_last(), ..m }).push_value(
            Value::Bool(true),
        ),
{
    reveal_with_fuel(after_steps, 4);
    let rest = Machine { control: m.control.drop_last(), ..m };
    let m1 = next(m).machine;
    assert(m1 == rest.push(FrameView::Decide(logical)).push(FrameView::Evaluate(*logical.left)));
    assert(m1.control.drop_last() =~= rest.control.push(FrameView::Decide(logical)));
    let m2 = next(m1).machine;
    assert(m2 == rest.push(FrameView::Decide(logical)).push_value(Value::Bool(true)));
    assert(m2.control.drop_last() =~= rest.control);
    let m3 = next(m2).machine;
    assert(m3 == rest.push_value(Value::Bool(true)));
}

/// `var x = v; x` yields `v`: a variable declared with a literal reads back
/// as that literal. Seven steps after the two statements are taken up, the
/// value of `x` is the newest value, and it is `v`.
pub proof fn lemma_declared_literal_reads_back(
    m: Machine,
    name: Token,
    literal: crate::literal::Literal,
    reader: Token,
)
    requires
        m.control.len() > 0,
        m.control.last() == (FrameView::Sequence {
            statements: seq![
                Stmt::Var(
                    crate::stmt::VarStmt {
                        name,
                        initializer: Some(crate::grammar::literal_expr(Some(literal))),
                    },
                ),
                Stmt::Expression(
                    crate::stmt::ExpressionStmt {
                        expression: Expr::Variable(crate::expr::VariableExpr { name: reader }),
                    },
                ),
            ],
            next: 0,
        }),
        reader.lexeme@ == name.lexeme@,
        m.current < m.scopes.len(),
    ensures
        after_steps(m, 7).values == m.values.push(literal@),
        after_steps(m, 7).scopes == bound(m.scopes, m.current, name.lexeme@, literal@),
{
    reveal_with_fuel(after_steps, 8);
    let declare = Stmt::Var(
        crate::stmt::VarStmt { name, initializer: Some(crate::grammar::literal_expr(Some(literal))) },
    );
    let read = Stmt::Expression(
        crate::stmt::ExpressionStmt {
            expression: Expr::Variable(crate::expr::VariableExpr { name: reader }),
        },
    );
    let statements = seq![declare, read];
    let rest = Machine { control: m.control.drop_last(), ..m };
    let c0 = rest.control;
    let s1 = FrameView::Sequence { statements, next: 1 };
    let s2 = FrameView::Sequence { statements, next: 2 };
    // the sequence takes up the declaration
    let m1 = next(m).machine;
    assert(m1.control == c0.push(s1).push(FrameView::Execute(declare)));
    assert(m1.control.drop_last() =~= c0.push(s1));
    // the declaration asks for its initializer
    let m2 = next(m1).machine;
    let define = FrameView::Define(name);
    let init = FrameView::Evaluate(crate::grammar::literal_expr(Some(literal)));
    assert(m2.control == c0.push(s1).push(define).push(init));
    assert(m2.control.drop_last() =~= c0.push(s1).push(define));
    // the literal is its own value
    let m3 = next(m2).machine;
    assert(m3.control == c0.push(s1).push(define));
    assert(m3.values == m.values.push(literal@));
    assert(m3.control.drop_last() =~= c0.push(s1));
    // the variable is bound
    let m4 = next(m3).machine;
    assert(m3.values.drop_last() =~= m.values);
    assert(m4.values == m.values);
    assert(m4.scopes == bound(m.scopes, m.current, name.lexeme@, literal@));
    assert(m4.control == c0.push(s1));
    assert(m4.control.drop_last() =~= c0);
    // the sequence takes up the reading statement
    let m5 = next(m4).machine;
    assert(m5.control == c0.push(s2).push(FrameView::Execute(read)));
    assert(m5.control.drop_last() =~= c0.push(s2));
    // the statement asks for the value of the variable
    let m6 = next(m5).machine;
    let get = FrameView::Evaluate(Expr::Variable(crate::expr::VariableExpr { name: reader }));
    assert(m6.control == c0.push(s2).push(FrameView::Discard).push(get));
    assert(m6.control.drop_last() =~= c0.push(s2).push(FrameView::Discard));
    // the variable reads back
    crate::environment::lemma_get_after_define(m.scopes, m.current, name.lexeme@, literal@);
    let m7 = next(m6).machine;
    assert(m7.values == m.values.push(literal@));
}

} // verus!
