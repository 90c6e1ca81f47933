//! The evaluator. It walks the trees of a program in steps: the host calls
//! `Execution::step` again and again, and does between two steps what the
//! last one asked for. So the host decides how a number is added or printed
//! and where the output goes, and a program that loops forever just never
//! says `Finished`.
use vstd::prelude::*;
use vstd::string::StringExecFns;
use crate::environment::chained;
use crate::environment::Environment;
use crate::environment::ScopeView;
use crate::error::LoxError;
use crate::expr::Expr;
use crate::expr::LogicalExpr;
use crate::literal::Literal;
use crate::literal::Value;
use crate::machine;
use crate::machine::all_base;
use crate::machine::shape;
use crate::machine::FrameView;
use crate::machine::Machine;
use crate::machine::Pending;
use crate::machine::Signal;
use crate::number::Number;
use crate::operators::apply_binary;
use crate::operators::apply_unary;
use crate::operators::short_circuits;
use crate::operators::Applied;
use crate::operators::Arithmetic;
use crate::stmt::IfStmt;
use crate::stmt::Stmt;
use crate::stmt::WhileStmt;
use crate::token::Token;

verus! {

/// One piece of work that is still to be done, on the trees of the program.
/// Each frame stands for the `FrameView` of its name.
#[derive(Clone, Copy)]
pub enum Frame<'a> {
    Execute(&'a Stmt),
    Sequence { statements: &'a [Stmt], next: usize },
    EndBlock { previous: usize },
    Loop(&'a WhileStmt),
    Discard,
    Print,
    Define(&'a Token),
    Branch(&'a IfStmt),
    Test(&'a WhileStmt),
    Evaluate(&'a Expr),
    Assign(&'a Token),
    Apply(&'a Token),
    Decide(&'a LogicalExpr),
    Unary(&'a Token),
}

impl<'a> View for Frame<'a> {
    type V = FrameView;

    open spec fn view(&self) -> FrameView {
        match *self {
            Frame::Execute(s) => FrameView::Execute(*s),
            Frame::Sequence { statements, next } => FrameView::Sequence {
                statements: statements@,
                next: next as nat,
            },
            Frame::EndBlock { previous } => FrameView::EndBlock { previous: previous as nat },
            Frame::Loop(w) => FrameView::Loop(*w),
            Frame::Discard => FrameView::Discard,
            Frame::Print => FrameView::Print,
            Frame::Define(name) => FrameView::Define(*name),
            Frame::Branch(i) => FrameView::Branch(*i),
            Frame::Test(w) => FrameView::Test(*w),
            Frame::Evaluate(e) => FrameView::Evaluate(*e),
            Frame::Assign(name) => FrameView::Assign(*name),
            Frame::Apply(operator) => FrameView::Apply(*operator),
            Frame::Decide(l) => FrameView::Decide(*l),
            Frame::Unary(operator) => FrameView::Unary(*operator),
        }
    }
}

/// What a run waits for from the host.
#[derive(Debug)]
pub enum Awaiting {
    /// Nothing: `step` is the call to make.
    Nothing,
    /// The number that a `Compute` request asked for: `supply_number`.
    Number,
    /// The text that a `Format` request asked for, to be joined with the
    /// string `other`: `supply_text`.
    Text { other: String, number_first: bool },
    /// The text that a `Format` request asked for, to be printed:
    /// `supply_text`.
    Printing,
}

impl View for Awaiting {
    type V = Pending;

    open spec fn view(&self) -> Pending {
        match *self {
            Awaiting::Nothing => Pending::Nothing,
            Awaiting::Number => Pending::Number,
            Awaiting::Text { other, number_first } => Pending::Text { other: other@, number_first },
            Awaiting::Printing => Pending::Printing,
        }
    }
}

/// What a step asks of the host.
#[derive(Debug)]
pub enum Request {
    /// Nothing.
    Continue,
    /// Write the text and a line feed to the output.
    Print(String),
    /// Compute `left operation right` as IEEE-754 binary64 arithmetic does,
    /// and supply the number.
    Compute { operation: Arithmetic, left: Number, right: Number },
    /// Write the number in decimal, in the shortest form that reads back as
    /// the same number, and supply the text.
    Format(Number),
    /// The program has run to its end.
    Finished,
    /// The program stopped at this runtime error.
    Failed(LoxError),
}

impl View for Request {
    type V = Signal;

    open spec fn view(&self) -> Signal {
        match *self {
            Request::Continue => Signal::Continue,
            Request::Print(text) => Signal::Print(text@),
            Request::Compute { operation, left, right } => Signal::Compute {
                operation,
                left,
                right,
            },
            Request::Format(n) => Signal::Format(n),
            Request::Finished => Signal::Finished,
            Request::Failed(e) => Signal::Failed(e@),
        }
    }
}

/// The views of a stack of frames.
pub open spec fn frame_views(frames: Seq<Frame>) -> Seq<FrameView> {
    frames.map_values(|f: Frame| f@)
}

/// The views of a stack of values.
pub open spec fn value_views(values: Seq<Literal>) -> Seq<Value> {
    values.map_values(|v: Literal| v@)
}

/// The evaluator between two runs: the scopes, the scope in which the next
/// program runs, and the loop depth, which is 0.
pub struct Interpreter {
    environment: Environment,
    current: usize,
    nest: usize,
}

/// A run of a program: the evaluator, and the work still to be done.
pub struct Execution<'a> {
    environment: Environment,
    current: usize,
    nest: usize,
    control: Vec<Frame<'a>>,
    values: Vec<Literal>,
    awaiting: Awaiting,
    base: usize,
    floor: usize,
}

impl Interpreter {
    /// The scopes.
    pub closed spec fn scopes(&self) -> Seq<ScopeView> {
        self.environment@
    }

    /// The index of the scope in which the next program runs.
    pub closed spec fn current(&self) -> nat {
        self.current as nat
    }

    /// How many loops the program is inside of.
    pub closed spec fn nest(&self) -> nat {
        self.nest as nat
    }

    /// The scope chain is sound, the current scope exists, and no loop is
    /// running.
    pub open spec fn wf(&self) -> bool {
        &&& self.sound()
        &&& chained(self.scopes())
        &&& self.current() < self.scopes().len()
        &&& self.nest() == 0
    }

    /// The scopes are stored soundly.
    pub closed spec fn sound(&self) -> bool {
        self.environment.wf()
    }

    /// An evaluator with the global scope alone, which binds nothing.
    pub fn new() -> (r: Interpreter)
        ensures
            r.wf(),
            r.scopes() == seq![ScopeView { bindings: Map::empty(), enclosing: None }],
            r.current() == 0,
    {
        Interpreter { environment: Environment::new(), current: 0, nest: 0 }
    }

    /// The scopes.
    pub fn environment(&self) -> (r: &Environment)
        requires
            self.wf(),
        ensures
            r@ == self.scopes(),
            r.wf(),
    {
        &self.environment
    }

    /// The index of the scope in which the next program runs.
    pub fn current_scope(&self) -> (r: usize)
        ensures
            r == self.current(),
    {
        self.current
    }

    /// How many loops the program is inside of: none, between two runs.
    pub fn loop_nest_depth(&self) -> (r: usize)
        ensures
            r == self.nest(),
    {
        self.nest
    }

    /// Begins a run of `statements`. The run goes on by `Execution::step`,
    /// and `Execution::finish` gives the evaluator back.
    pub fn interpret<'a>(self, statements: &'a [Stmt]) -> (r: Execution<'a>)
        requires
            self.wf(),
        ensures
            r.wf(),
            r@ == machine::begun(self.scopes(), self.current(), statements@),
    {
        let floor = self.environment.len();
        let mut control: Vec<Frame<'a>> = Vec::new();
        control.push(Frame::Sequence { statements, next: 0 });
        let r = Execution {
            environment: self.environment,
            current: self.current,
            nest: 0,
            control,
            values: Vec::new(),
            awaiting: Awaiting::Nothing,
            base: self.current,
            floor,
        };
        proof {
            machine::lemma_begun_wf(self.scopes(), self.current(), statements@);
            assert(r@.control =~= seq![FrameView::Sequence { statements: statements@, next: 0 }]);
            assert(r@.values =~= Seq::empty());
        }
        r
    }
}

impl<'a> View for Execution<'a> {
    type V = Machine;

    closed spec fn view(&self) -> Machine {
        Machine {
            control: frame_views(self.control@),
            values: value_views(self.values@),
            scopes: self.environment@,
            current: self.current as nat,
            nest: self.nest as nat,
            pending: self.awaiting@,
            base: self.base as nat,
            floor: self.floor as nat,
        }
    }
}

impl<'a> Execution<'a> {
    /// The state of the run is sound.
    pub open spec fn wf(&self) -> bool {
        self@.wf() && self.sound()
    }

    /// The scopes are stored soundly.
    pub closed spec fn sound(&self) -> bool {
        self.environment.wf()
    }

    /// What the run waits for.
    pub fn awaiting(&self) -> (r: &Awaiting)
        ensures
            r@ == self@.pending,
    {
        &self.awaiting
    }

    /// Whether no work is left.
    pub fn is_done(&self) -> (r: bool)
        ensures
            r == (self@.control.len() == 0),
    {
        self.control.len() == 0
    }

    fn push(&mut self, frame: Frame<'a>)
        requires
            old(self).sound(),
        ensures
            final(self).sound(),
            final(self)@ == old(self)@.push(frame@),
    {
        self.control.push(frame);
        assert(frame_views(self.control@) =~= frame_views(old(self).control@).push(frame@));
    }

    fn push_value(&mut self, value: Literal)
        requires
            old(self).sound(),
        ensures
            final(self).sound(),
            final(self)@ == old(self)@.push_value(value@),
    {
        self.values.push(value);
        assert(value_views(self.values@) =~= value_views(old(self).values@).push(value@));
    }

    fn pop_value(&mut self) -> (r: Literal)
        requires
            old(self).sound(),
            old(self)@.values.len() > 0,
        ensures
            final(self).sound(),
            final(self)@ == old(self)@.drop_value(),
            r@ == old(self)@.values.last(),
    {
        let value = self.values.pop();
        assert(value_views(self.values@) =~= value_views(old(self).values@).drop_last());
        match value {
            Some(v) => v,
            None => Literal::Nil,
        }
    }

    /// The newest value.
    fn top(&self) -> (r: &Literal)
        requires
            self@.values.len() > 0,
        ensures
            r@ == self@.values.last(),
    {
        &self.values[self.values.len() - 1]
    }

    /// Gives the run up: drops the work, the values and the scopes of the
    /// blocks that are open.
    fn stop(&mut self)
        requires
            old(self).sound(),
            old(self)@.floor <= old(self)@.scopes.len(),
            old(self)@.floor > 0,
        ensures
            final(self).sound(),
            final(self)@ == old(self)@.stopped(),
    {
        self.control.clear();
        self.values.clear();
        self.awaiting = Awaiting::Nothing;
        self.nest = 0;
        self.current = self.base;
        while self.environment.len() > self.floor
            invariant
                self.environment.wf(),
                self.control@.len() == 0,
                self.values@.len() == 0,
                self.awaiting == Awaiting::Nothing,
                self.nest == 0,
                self.current == old(self).base,
                self.base == old(self).base,
                self.floor == old(self).floor,
                self.floor > 0,
                self.floor <= self.environment@.len() <= old(self).environment@.len(),
                self.environment@ == old(self).environment@.take(self.environment@.len() as int),
            decreases self.environment@.len(),
        {
            self.environment.release();
            assert(self.environment@ =~= old(self).environment@.take(
                self.environment@.len() as int,
            ));
        }
        assert(frame_views(self.control@) =~= Seq::empty());
        assert(value_views(self.values@) =~= Seq::empty());
    }

    fn fail(&mut self, error: LoxError) -> (r: Request)
        requires
            old(self).sound(),
            old(self)@.floor <= old(self)@.scopes.len(),
            old(self)@.floor > 0,
        ensures
            final(self).sound(),
            final(self)@ == old(self)@.fail(error@).machine,
            r@ == old(self)@.fail(error@).signal,
    {
        self.stop();
        Request::Failed(error)
    }

    /// Leaves the innermost loop.
    fn unwind(&mut self)
        requires
            old(self).sound(),
            old(self)@.grounded(),
            all_base(old(self)@.control),
        ensures
            final(self).sound(),
            final(self)@ == old(self)@.unwound(),
    {
        loop
            invariant
                self.sound(),
                self@.grounded(),
                all_base(self@.control),
                self@.unwound() == old(self)@.unwound(),
            decreases self.control.len(),
        {
            let ghost before = self@;
            match self.control.pop() {
                None => {
                    return ;
                },
                Some(frame) => {
                    proof {
                        assert(frame_views(self.control@) =~= before.control.drop_last());
                        assert(frame@ == before.control.last());
                        assert(machine::is_base(before.control[before.control.len() - 1]));
                        machine::lemma_pushed(self@.control, frame@, self@.base, self@.floor);
                        assert(self@.control.push(frame@) =~= before.control);
                    }
                    match frame {
                        Frame::Loop(_) => {
                            self.nest = self.nest - 1;
                            return ;
                        },
                        Frame::EndBlock { previous } => {
                            self.environment.release();
                            self.current = previous;
                        },
                        _ => {},
                    }
                },
            }
        }
    }

    /// Starts on a statement.
    fn execute(&mut self, statement: &'a Stmt) -> (r: Request)
        requires
            old(self).sound(),
            old(self)@.grounded(),
            all_base(old(self)@.control),
            old(self)@.control.len() < usize::MAX,
        ensures
            final(self).sound(),
            final(self)@ == machine::execute(old(self)@, *statement).machine,
            r@ == machine::execute(old(self)@, *statement).signal,
    {
        proof {
            machine::lemma_current_in_range(self@);
        }
        match statement {
            Stmt::Expression(e) => {
                self.push(Frame::Discard);
                self.push(Frame::Evaluate(&e.expression));
                Request::Continue
            },
            Stmt::Print(p) => {
                self.push(Frame::Print);
                self.push(Frame::Evaluate(&p.expression));
                Request::Continue
            },
            Stmt::Var(v) => {
                match &v.initializer {
                    Some(init) => {
                        self.push(Frame::Define(&v.name));
                        self.push(Frame::Evaluate(init));
                    },
                    None => {
                        self.environment.define(
                            self.current,
                            v.name.as_string().as_str(),
                            Literal::Nil,
                        );
                    },
                }
                Request::Continue
            },
            Stmt::Block(b) => {
                let previous = self.current;
                self.current = self.environment.new_with_enclosing(previous);
                self.push(Frame::EndBlock { previous });
                self.push(Frame::Sequence { statements: b.statements.as_slice(), next: 0 });
                Request::Continue
            },
            Stmt::If(i) => {
                self.push(Frame::Branch(i));
                self.push(Frame::Evaluate(&i.condition));
                Request::Continue
            },
            Stmt::While(w) => {
                proof {
                    machine::lemma_counts_bounded(self@.control);
                }
                self.nest = self.nest + 1;
                self.push(Frame::Loop(w));
                Request::Continue
            },
            Stmt::Break(b) => {
                if self.nest == 0 {
                    let error = LoxError::runtime_error(
                        &b.token,
                        "break outside of while/for loop".to_owned(),
                    );
                    self.fail(error)
                } else {
                    self.unwind();
                    Request::Continue
                }
            },
        }
    }

    /// Starts on an expression.
    fn evaluate(&mut self, expression: &'a Expr) -> (r: Request)
        requires
            old(self).sound(),
            old(self)@.grounded(),
        ensures
            final(self).sound(),
            final(self)@ == machine::evaluate(old(self)@, *expression).machine,
            r@ == machine::evaluate(old(self)@, *expression).signal,
    {
        proof {
            machine::lemma_current_in_range(self@);
        }
        match expression {
            Expr::Literal(l) => {
                let value = match &l.value {
                    Some(v) => v.dup(),
                    None => Literal::Nil,
                };
                self.push_value(value);
                Request::Continue
            },
            Expr::Grouping(g) => {
                self.push(Frame::Evaluate(&*g.expression));
                Request::Continue
            },
            Expr::Variable(v) => match self.environment.get(self.current, &v.name) {
                Ok(value) => {
                    self.push_value(value);
                    Request::Continue
                },
                Err(error) => self.fail(error),
            },
            Expr::Assign(a) => {
                self.push(Frame::Assign(&a.name));
                self.push(Frame::Evaluate(&*a.value));
                Request::Continue
            },
            Expr::Logical(l) => {
                self.push(Frame::Decide(l));
                self.push(Frame::Evaluate(&*l.left));
                Request::Continue
            },
            Expr::Unary(u) => {
                self.push(Frame::Unary(&u.operator));
                self.push(Frame::Evaluate(&*u.right));
                Request::Continue
            },
            Expr::Binary(b) => {
                self.push(Frame::Apply(&b.operator));
                self.push(Frame::Evaluate(&*b.right));
                self.push(Frame::Evaluate(&*b.left));
                Request::Continue
            },
        }
    }

    /// Applies a binary operator to the two newest values.
    fn apply(&mut self, operator: &'a Token) -> (r: Request)
        requires
            old(self).sound(),
            old(self)@.grounded(),
            old(self)@.values.len() >= 2,
            old(self)@.pending is Nothing,
        ensures
            final(self).sound(),
            final(self)@ == machine::apply(old(self)@, *operator).machine,
            r@ == machine::apply(old(self)@, *operator).signal,
    {
        proof {
            machine::lemma_current_in_range(self@);
        }
        let ghost before = self@;
        let right = self.pop_value();
        let left = self.pop_value();
        match apply_binary(operator.token_type(), left, right) {
            Applied::Value(v) => {
                self.push_value(v);
                Request::Continue
            },
            Applied::Compute { operation, left, right } => {
                self.awaiting = Awaiting::Number;
                Request::Compute { operation, left, right }
            },
            Applied::Join { text, number, number_first } => {
                self.awaiting = Awaiting::Text { other: text, number_first };
                Request::Format(number)
            },
            Applied::Illegal => {
                let error = LoxError::runtime_error(operator, "Illegal expression.".to_owned());
                proof {
                    assert(self@.stopped() == before.stopped());
                }
                self.fail(error)
            },
        }
    }

    /// Goes on with `frame`, which was the last of the work.
    fn resume(&mut self, frame: Frame<'a>) -> (r: Request)
        requires
            old(self).sound(),
            old(self)@.push(frame@).wf(),
            old(self)@.pending is Nothing,
            old(self)@.control.len() < usize::MAX,
        ensures
            final(self).sound(),
            final(self)@ == machine::resume(old(self)@, frame@).machine,
            r@ == machine::resume(old(self)@, frame@).signal,
    {
        proof {
            reveal_with_fuel(shape, 2);
            machine::lemma_pushed(self@.control, frame@, self@.base, self@.floor);
            machine::lemma_current_in_range(self@.push(frame@));
        }
        match frame {
            Frame::Execute(statement) => self.execute(statement),
            Frame::Sequence { statements, next } => {
                if next < statements.len() {
                    self.push(Frame::Sequence { statements, next: next + 1 });
                    self.push(Frame::Execute(&statements[next]));
                }
                Request::Continue
            },
            Frame::EndBlock { previous } => {
                self.environment.release();
                self.current = previous;
                Request::Continue
            },
            Frame::Loop(w) => {
                self.push(Frame::Loop(w));
                self.push(Frame::Test(w));
                self.push(Frame::Evaluate(&w.condition));
                Request::Continue
            },
            Frame::Discard => {
                self.pop_value();
                Request::Continue
            },
            Frame::Print => {
                match self.pop_value() {
                    Literal::Number(n) => {
                        self.awaiting = Awaiting::Printing;
                        Request::Format(n)
                    },
                    Literal::Nil => Request::Print("nil".to_owned()),
                    Literal::Bool(b) => Request::Print(
                        if b {
                            "true".to_owned()
                        } else {
                            "false".to_owned()
                        },
                    ),
                    Literal::String(s) => Request::Print(s),
                }
            },
            Frame::Define(name) => {
                let value = self.pop_value();
                self.environment.define(self.current, name.as_string().as_str(), value);
                Request::Continue
            },
            Frame::Branch(i) => {
                let condition = self.pop_value();
                if condition.is_truthy() {
                    self.push(Frame::Execute(&*i.then_branch));
                } else if let Some(else_branch) = &i.else_branch {
                    self.push(Frame::Execute(&**else_branch));
                }
                Request::Continue
            },
            Frame::Test(w) => {
                let condition = self.pop_value();
                if condition.is_truthy() {
                    self.push(Frame::Execute(&*w.body));
                } else {
                    self.unwind();
                }
                Request::Continue
            },
            Frame::Evaluate(expression) => self.evaluate(expression),
            Frame::Assign(name) => {
                let value = self.top().dup();
                match self.environment.assign(self.current, name, value) {
                    Ok(_) => Request::Continue,
                    Err(error) => self.fail(error),
                }
            },
            Frame::Apply(operator) => self.apply(operator),
            Frame::Decide(l) => {
                if !short_circuits(l.operator.token_type(), self.top()) {
                    self.pop_value();
                    self.push(Frame::Evaluate(&*l.right));
                }
                Request::Continue
            },
            Frame::Unary(operator) => {
                let ghost before = self@;
                let right = self.pop_value();
                match apply_unary(operator.token_type(), right) {
                    Some(v) => {
                        self.push_value(v);
                        Request::Continue
                    },
                    None => {
                        let error = LoxError::runtime_error(
                            operator,
                            "Unreachable according to Nystrom".to_owned(),
                        );
                        proof {
                            assert(self@.stopped() == before.stopped());
                        }
                        self.fail(error)
                    },
                }
            },
        }
    }

    /// Takes one step of the run: goes on with the last piece of work, and
    /// says what the host is to do before the next call.
    ///
    /// After `Compute` and `Format` the next call is `supply_number` or
    /// `supply_text`; after every other request it is `step`. Once no work
    /// is left, every step says `Finished`. A runtime error ends the run:
    /// the step says `Failed`, and leaves no work, no open block and no
    /// running loop behind.
    pub fn step(&mut self) -> (r: Request)
        requires
            old(self).wf(),
            old(self)@.pending is Nothing,
        ensures
            final(self).wf(),
            final(self)@ == machine::next(old(self)@).machine,
            r@ == machine::next(old(self)@).signal,
            (r is Finished || r is Failed) ==> final(self)@.control.len() == 0 && final(self)@.nest
                == 0 && final(self)@.current == old(self)@.base,
    {
        proof {
            machine::lemma_next_keeps_wf(self@);
        }
        let ghost before = self@;
        let frames = self.control.len();
        match self.control.pop() {
            None => {
                assert(before.control =~= Seq::empty());
                Request::Finished
            },
            Some(frame) => {
                proof {
                    assert(frame_views(self.control@) =~= before.control.drop_last());
                    assert(self@.push(frame@).control =~= before.control);
                    assert(self@.push(frame@) == before);
                    assert(self.control@.len() == frames - 1);
                }
                self.resume(frame)
            },
        }
    }

    /// Hands the run the number that its last request, a `Compute`, asked
    /// for: it becomes the newest value.
    pub fn supply_number(&mut self, value: Number)
        requires
            old(self).wf(),
            old(self)@.pending is Number,
        ensures
            final(self).wf(),
            final(self)@ == machine::with_number(old(self)@, value),
    {
        proof {
            machine::lemma_supply_keeps_wf(self@, value, Seq::empty());
        }
        self.awaiting = Awaiting::Nothing;
        self.push_value(Literal::Number(value));
    }

    /// Hands the run the text that its last request, a `Format`, asked for.
    /// Where a string waited for the text, the two joined become the newest
    /// value. Where a `print` waited for it, the host is asked to print it.
    pub fn supply_text(&mut self, text: String) -> (r: Request)
        requires
            old(self).wf(),
            old(self)@.pending is Text || old(self)@.pending is Printing,
        ensures
            final(self).wf(),
            final(self)@ == machine::with_text(old(self)@, text@).machine,
            r@ == machine::with_text(old(self)@, text@).signal,
    {
        proof {
            machine::lemma_supply_keeps_wf(self@, Number { bits: 0 }, text@);
        }
        let mut waiting = Awaiting::Nothing;
        core::mem::swap(&mut self.awaiting, &mut waiting);
        match waiting {
            Awaiting::Text { other, number_first } => {
                let joined = if number_first {
                    text.concat(other.as_str())
                } else {
                    other.concat(text.as_str())
                };
                self.push_value(Literal::String(joined));
                Request::Continue
            },
            Awaiting::Printing => Request::Print(text),
            _ => Request::Continue,
        }
    }

    /// Ends the run, whatever is left of it, and gives the evaluator back:
    /// with the scopes of the start of the run, as the run has changed
    /// them, in the scope in which the run began, and inside no loop.
    pub fn finish(self) -> (r: Interpreter)
        requires
            self.wf(),
        ensures
            r.wf(),
            r.scopes() == self@.scopes.take(self@.floor as int),
            r.current() == self@.base,
            r.nest() == 0,
    {
        let mut run = self;
        proof {
            machine::lemma_current_in_range(run@);
            machine::lemma_stopped_wf(run@);
        }
        run.stop();
        Interpreter { environment: run.environment, current: run.current, nest: run.nest }
    }
}

} // verus!
