//! Virtual machine.
//!
//! The machine state is an operand stack and a method table; a program runs
//! as a stack of frames, each an execution position inside a block, a
//! pending `while` decision, or a pending `times` count. The ghost
//! small-step function [`step`] gives the meaning of one move of that
//! machine, and [`run_steps`] iterates it; [`Vm::run_block`] is proved to
//! return exactly what the iterated semantics says, up to its step budget.

use vstd::prelude::*;
use vstd::string::StringExecFns;
use crate::builtin::{apply_op, is_data_builtin, is_data_op, apply_builtin, OpOutcome};
use crate::item::{
    lemma_items_view, Block, BlockItem, BlockItemView, BlockView, Stack, StackItem, StackItemView,
};

verus! {

/// Possible errors due to running a block.
///
/// `ResourceExhausted` reports that the step budget ran out before the
/// program finished: the one failure mode that is about the host's
/// resources rather than the program.
#[derive(Clone, Debug, PartialEq)]
pub enum Error {
    TypeError,
    OutOfBounds,
    IntegerOverflow,
    NumericConversion,
    DivideByZero,
    StackUnderflow,
    UnknownMethod(String),
    ResourceExhausted,
}

/// Ghost model of a run-time [`Error`].
#[verifier::ext_equal]
pub ghost enum ErrorView {
    TypeError,
    OutOfBounds,
    IntegerOverflow,
    NumericConversion,
    DivideByZero,
    StackUnderflow,
    UnknownMethod(Seq<char>),
    ResourceExhausted,
}

impl View for Error {
    type V = ErrorView;

    open spec fn view(&self) -> ErrorView {
        match self {
            Error::TypeError => ErrorView::TypeError,
            Error::OutOfBounds => ErrorView::OutOfBounds,
            Error::IntegerOverflow => ErrorView::IntegerOverflow,
            Error::NumericConversion => ErrorView::NumericConversion,
            Error::DivideByZero => ErrorView::DivideByZero,
            Error::StackUnderflow => ErrorView::StackUnderflow,
            Error::UnknownMethod(name) => ErrorView::UnknownMethod(name@),
            Error::ResourceExhausted => ErrorView::ResourceExhausted,
        }
    }
}

/// The native operations: one handle per builtin.
#[derive(Clone, Copy, Debug, PartialEq, Eq)]
pub enum BuiltinOp {
    Add,
    Sub,
    Mul,
    Div,
    AsInteger,
    AsFloat,
    ToString,
    Swap,
    Dup,
    CloneNth,
    Clear,
    Len,
    Over,
    Rot,
    Pop,
    False,
    True,
    Eq,
    Not,
    Or,
    Cat,
    If,
    IfElse,
    While,
    Times,
    Fn,
}

/// A named, invocable unit of behavior: a native operation or a
/// user-defined block.
#[derive(Debug, PartialEq)]
pub enum Method {
    Builtin(BuiltinOp),
    Block(Block),
}

/// Ghost model of a [`Method`].
#[verifier::ext_equal]
pub ghost enum MethodView {
    Builtin(BuiltinOp),
    Block(BlockView),
}

impl View for Method {
    type V = MethodView;

    open spec fn view(&self) -> MethodView {
        match self {
            Method::Builtin(op) => MethodView::Builtin(*op),
            Method::Block(b) => MethodView::Block(b@),
        }
    }
}

impl Method {
    /// Copy the method by value; the copy has the same model.
    pub fn duplicate(&self) -> (r: Method)
        ensures
            r@ == self@,
    {
        match self {
            Method::Builtin(op) => Method::Builtin(*op),
            Method::Block(b) => Method::Block(b.duplicate()),
        }
    }
}

/// One entry of the frame stack: an execution position inside a block, a
/// pending `while` decision (condition block, body block), or a pending
/// `times` count.
#[derive(Debug)]
pub enum Frame {
    Run(Block, usize),
    WhileDecide(Block, Block),
    Times(Block, i64),
}

/// Ghost model of a [`Frame`].
#[verifier::ext_equal]
pub ghost enum FrameView {
    Run(BlockView, int),
    WhileDecide(BlockView, BlockView),
    Times(BlockView, int),
}

impl View for Frame {
    type V = FrameView;

    open spec fn view(&self) -> FrameView {
        match self {
            Frame::Run(b, ip) => FrameView::Run(b@, *ip as int),
            Frame::WhileDecide(c, b) => FrameView::WhileDecide(c@, b@),
            Frame::Times(b, n) => FrameView::Times(b@, *n as int),
        }
    }
}

/// The models of a frame stack, element by element.
pub open spec fn frames_view(s: Seq<Frame>) -> Seq<FrameView> {
    Seq::new(s.len(), |i: int| s[i]@)
}

/// The mapping a run of method-table entries denotes: later entries win.
pub open spec fn table_view(s: Seq<(String, Method)>) -> Map<Seq<char>, MethodView>
    decreases s.len(),
{
    if s.len() == 0 {
        Map::empty()
    } else {
        table_view(s.drop_last()).insert(s.last().0@, s.last().1@)
    }
}

/// Appending one entry inserts its binding.
pub proof fn lemma_table_view_push(s: Seq<(String, Method)>, e: (String, Method))
    ensures
        table_view(s.push(e)) == table_view(s).insert(e.0@, e.1@),
{
    assert(s.push(e).drop_last() =~= s);
    assert(s.push(e).last() == e);
}

/// One machine configuration: the operand stack, the method table and the
/// frame stack, innermost frame last.
#[verifier::ext_equal]
pub ghost struct ConfigView {
    pub stack: Seq<StackItemView>,
    pub table: Map<Seq<char>, MethodView>,
    pub frames: Seq<FrameView>,
}

/// Where the machine stands after some steps: still going, or done with
/// the final stack, table, and `None` for success or the first error.
#[verifier::ext_equal]
pub ghost enum FlowView {
    Go(ConfigView),
    Done(Seq<StackItemView>, Map<Seq<char>, MethodView>, Option<ErrorView>),
}

/// One step of a builtin called by name: data ops run [`apply_op`] on the
/// stack; control ops pop their operands and push frames; `fn` installs a
/// method, overwriting any prior entry of the same name.
pub open spec fn step_builtin(
    op: BuiltinOp,
    stack: Seq<StackItemView>,
    table: Map<Seq<char>, MethodView>,
    fr2: Seq<FrameView>,
) -> FlowView {
    if op is Fn {
        if stack.len() == 0 {
            FlowView::Done(stack, table, Some(ErrorView::StackUnderflow))
        } else if stack.len() == 1 {
            FlowView::Done(stack.drop_last(), table, Some(ErrorView::StackUnderflow))
        } else {
            let blk = stack.last();
            let nm = stack[stack.len() - 2];
            let rest = stack.drop_last().drop_last();
            match (nm, blk) {
                (StackItemView::Symbol(s), StackItemView::Block(b)) => FlowView::Go(
                    ConfigView {
                        stack: rest,
                        table: table.insert(s, MethodView::Block(b)),
                        frames: fr2,
                    },
                ),
                _ => FlowView::Done(rest, table, Some(ErrorView::TypeError)),
            }
        }
    } else if op is If {
        if stack.len() == 0 {
            FlowView::Done(stack, table, Some(ErrorView::StackUnderflow))
        } else if stack.len() == 1 {
            FlowView::Done(stack.drop_last(), table, Some(ErrorView::StackUnderflow))
        } else {
            let blk = stack.last();
            let cond = stack[stack.len() - 2];
            let rest = stack.drop_last().drop_last();
            match (blk, cond) {
                (StackItemView::Block(b), StackItemView::Boolean(v)) => FlowView::Go(
                    ConfigView {
                        stack: rest,
                        table,
                        frames: if v {
                            fr2.push(FrameView::Run(b, 0))
                        } else {
                            fr2
                        },
                    },
                ),
                _ => FlowView::Done(rest, table, Some(ErrorView::TypeError)),
            }
        }
    } else if op is IfElse {
        if stack.len() == 0 {
            FlowView::Done(stack, table, Some(ErrorView::StackUnderflow))
        } else if stack.len() == 1 {
            FlowView::Done(stack.drop_last(), table, Some(ErrorView::StackUnderflow))
        } else if stack.len() == 2 {
            FlowView::Done(
                stack.drop_last().drop_last(),
                table,
                Some(ErrorView::StackUnderflow),
            )
        } else {
            let else_b = stack.last();
            let if_b = stack[stack.len() - 2];
            let cond = stack[stack.len() - 3];
            let rest = stack.drop_last().drop_last().drop_last();
            match (else_b, if_b, cond) {
                (
                    StackItemView::Block(eb),
                    StackItemView::Block(ib),
                    StackItemView::Boolean(v),
                ) => FlowView::Go(
                    ConfigView {
                        stack: rest,
                        table,
                        frames: fr2.push(FrameView::Run(if v { ib } else { eb }, 0)),
                    },
                ),
                _ => FlowView::Done(rest, table, Some(ErrorView::TypeError)),
            }
        }
    } else if op is While {
        if stack.len() == 0 {
            FlowView::Done(stack, table, Some(ErrorView::StackUnderflow))
        } else if stack.len() == 1 {
            FlowView::Done(stack.drop_last(), table, Some(ErrorView::StackUnderflow))
        } else {
            let action = stack.last();
            let cond = stack[stack.len() - 2];
            let rest = stack.drop_last().drop_last();
            match (action, cond) {
                (StackItemView::Block(a), StackItemView::Block(c)) => FlowView::Go(
                    ConfigView {
                        stack: rest,
                        table,
                        frames: fr2.push(FrameView::WhileDecide(c, a)).push(
                            FrameView::Run(c, 0),
                        ),
                    },
                ),
                _ => FlowView::Done(rest, table, Some(ErrorView::TypeError)),
            }
        }
    } else if op is Times {
        if stack.len() == 0 {
            FlowView::Done(stack, table, Some(ErrorView::StackUnderflow))
        } else if stack.len() == 1 {
            FlowView::Done(stack.drop_last(), table, Some(ErrorView::StackUnderflow))
        } else {
            let blk = stack.last();
            let times = stack[stack.len() - 2];
            let rest = stack.drop_last().drop_last();
            match (blk, times) {
                (StackItemView::Block(b), StackItemView::Integer(n)) => FlowView::Go(
                    ConfigView { stack: rest, table, frames: fr2.push(FrameView::Times(b, n)) },
                ),
                _ => FlowView::Done(rest, table, Some(ErrorView::TypeError)),
            }
        }
    } else {
        match apply_op(op, stack) {
            OpOutcome::Next(s2) => FlowView::Go(ConfigView { stack: s2, table, frames: fr2 }),
            OpOutcome::Stop(e, s2) => FlowView::Done(s2, table, Some(e)),
        }
    }
}

/// One step of the machine. An empty frame stack is success. Otherwise the
/// innermost frame moves: the next item of a running block is pushed or
/// dispatched (an absent name is `UnknownMethod`, a block method becomes a
/// new frame, a builtin runs [`step_builtin`]); a `while` decision pops a
/// boolean and either queues body, condition and itself again or ends the
/// loop; a `times` count queues its block that many more times.
pub open spec fn step(c: ConfigView) -> FlowView {
    if c.frames.len() == 0 {
        FlowView::Done(c.stack, c.table, None)
    } else {
        let fr = c.frames.last();
        let popped = c.frames.drop_last();
        match fr {
            FrameView::Run(b, ip) => {
                if ip < 0 || ip >= b.items.len() {
                    FlowView::Go(ConfigView { stack: c.stack, table: c.table, frames: popped })
                } else {
                    let fr2 = popped.push(FrameView::Run(b, ip + 1));
                    match b.items[ip] {
                        BlockItemView::Literal(v) => FlowView::Go(
                            ConfigView { stack: c.stack.push(v), table: c.table, frames: fr2 },
                        ),
                        BlockItemView::Call(name) => {
                            if !c.table.contains_key(name) {
                                FlowView::Done(
                                    c.stack,
                                    c.table,
                                    Some(ErrorView::UnknownMethod(name)),
                                )
                            } else {
                                match c.table[name] {
                                    MethodView::Block(body) => FlowView::Go(
                                        ConfigView {
                                            stack: c.stack,
                                            table: c.table,
                                            frames: fr2.push(FrameView::Run(body, 0)),
                                        },
                                    ),
                                    MethodView::Builtin(op) => step_builtin(
                                        op,
                                        c.stack,
                                        c.table,
                                        fr2,
                                    ),
                                }
                            }
                        },
                    }
                }
            },
            FrameView::WhileDecide(cond, body) => {
                if c.stack.len() == 0 {
                    FlowView::Done(c.stack, c.table, Some(ErrorView::StackUnderflow))
                } else {
                    match c.stack.last() {
                        StackItemView::Boolean(v) => {
                            if v {
                                FlowView::Go(
                                    ConfigView {
                                        stack: c.stack.drop_last(),
                                        table: c.table,
                                        frames: popped.push(
                                            FrameView::WhileDecide(cond, body),
                                        ).push(FrameView::Run(cond, 0)).push(
                                            FrameView::Run(body, 0),
                                        ),
                                    },
                                )
                            } else {
                                FlowView::Go(
                                    ConfigView {
                                        stack: c.stack.drop_last(),
                                        table: c.table,
                                        frames: popped,
                                    },
                                )
                            }
                        },
                        _ => FlowView::Done(
                            c.stack.drop_last(),
                            c.table,
                            Some(ErrorView::TypeError),
                        ),
                    }
                }
            },
            FrameView::Times(b, n) => {
                if n > 0 {
                    FlowView::Go(
                        ConfigView {
                            stack: c.stack,
                            table: c.table,
                            frames: popped.push(FrameView::Times(b, n - 1)).push(
                                FrameView::Run(b, 0),
                            ),
                        },
                    )
                } else {
                    FlowView::Go(
                        ConfigView { stack: c.stack, table: c.table, frames: popped },
                    )
                }
            },
        }
    }
}

/// The machine after `n` steps from `c`; a finished machine stays put.
pub open spec fn run_steps(c: ConfigView, n: nat) -> FlowView
    decreases n,
{
    if n == 0 {
        FlowView::Go(c)
    } else {
        match run_steps(c, (n - 1) as nat) {
            FlowView::Go(c2) => step(c2),
            done => done,
        }
    }
}

/// A finished machine is finished at every later step count too.
pub proof fn lemma_run_steps_done(c: ConfigView, n: nat, m: nat)
    requires
        n <= m,
        run_steps(c, n) is Done,
    ensures
        run_steps(c, m) == run_steps(c, n),
    decreases m,
{
    if m > n {
        lemma_run_steps_done(c, n, (m - 1) as nat);
    }
}

/// The step budget of [`Vm::run_block`] and [`Vm::run`].
pub const DEFAULT_STEP_LIMIT: u64 = 0xffff_ffff_ffff_ffff;

/// The virtual machine: the operand stack and the method table, the only
/// state a program can touch.
pub struct Vm {
    pub stack: Stack,
    pub methods: Vec<(String, Method)>,
}

impl Vm {
    /// The mapping the method table denotes.
    pub open spec fn table(&self) -> Map<Seq<char>, MethodView> {
        table_view(self.methods@)
    }

    /// The configuration of this machine with the given frames.
    pub open spec fn config(&self, frames: Seq<FrameView>) -> ConfigView {
        ConfigView { stack: self.stack@, table: self.table(), frames }
    }

    /// An empty machine: empty stack, no methods.
    pub fn new() -> (r: Vm)
        ensures
            r.stack@ == Seq::<StackItemView>::empty(),
            r.table() == Map::<Seq<char>, MethodView>::empty(),
    {
        let r = Vm { stack: Stack(Vec::new()), methods: Vec::new() };
        proof {
            assert(r.stack@ =~= Seq::<StackItemView>::empty());
        }
        r
    }

    /// A machine with an empty stack and the standard builtin set already
    /// registered.
    pub fn new_with_builtins() -> (r: Vm)
        ensures
            r.stack@ == Seq::<StackItemView>::empty(),
            r.table() == crate::builtin::with_standard_builtins(
                Map::<Seq<char>, MethodView>::empty(),
            ),
    {
        let mut vm = Vm::new();
        crate::builtin::insert_all(&mut vm);
        vm
    }

    /// Register a native operation under a name, overwriting any prior
    /// entry of that name.
    pub fn insert_builtin(&mut self, name: &str, op: BuiltinOp)
        ensures
            final(self).stack == old(self).stack,
            final(self).table() == old(self).table().insert(name@, MethodView::Builtin(op)),
    {
        let entry = (String::from_str(name), Method::Builtin(op));
        proof {
            lemma_table_view_push(self.methods@, entry);
        }
        self.methods.push(entry);
    }

    /// Look up a name in the method table; the latest entry of that name
    /// wins. Yields a copy of the method, or `None` for an unknown name.
    fn lookup_method(&self, name: &String) -> (r: Option<Method>)
        ensures
            match r {
                None => !self.table().contains_key(name@),
                Some(m) => self.table().contains_key(name@) && m@ == self.table()[name@],
            },
    {
        let mut i: usize = self.methods.len();
        proof {
            assert(self.methods@.subrange(0, i as int) =~= self.methods@);
        }
        while i > 0
            invariant
                i <= self.methods@.len(),
                table_view(self.methods@).contains_key(name@) == table_view(
                    self.methods@.subrange(0, i as int),
                ).contains_key(name@),
                table_view(self.methods@).contains_key(name@) ==> table_view(self.methods@)[name@]
                    == table_view(self.methods@.subrange(0, i as int))[name@],
            decreases i,
        {
            i = i - 1;
            let ghost pre = self.methods@.subrange(0, i as int + 1);
            proof {
                assert(pre.drop_last() =~= self.methods@.subrange(0, i as int));
                assert(pre.last() == self.methods@[i as int]);
                assert(table_view(pre) == table_view(pre.drop_last()).insert(
                    pre.last().0@,
                    pre.last().1@,
                ));
            }
            let entry = &self.methods[i];
            if entry.0 == *name {
                return Some(entry.1.duplicate());
            }
        }
        proof {
            assert(self.methods@.subrange(0, 0) =~= Seq::<(String, Method)>::empty());
        }
        None
    }

    /// Run a frame stack until it empties, a step fails, or the budget runs
    /// out, exactly as [`run_steps`] says of the starting configuration.
    fn run_frames(&mut self, frames: Vec<Frame>, limit: u64) -> (r: Result<(), Error>)
        ensures
            ({
                let cfg0 = ConfigView {
                    stack: old(self).stack@,
                    table: table_view(old(self).methods@),
                    frames: frames_view(frames@),
                };
                match run_steps(cfg0, limit as nat) {
                    FlowView::Go(c) => {
                        &&& (if c.frames.len() == 0 {
                            r is Ok
                        } else {
                            r matches Err(e) && e is ResourceExhausted
                        })
                        &&& final(self).stack@ == c.stack
                        &&& final(self).table() == c.table
                    },
                    FlowView::Done(st, tb, res) => {
                        &&& final(self).stack@ == st
                        &&& final(self).table() == tb
                        &&& match res {
                            None => r is Ok,
                            Some(e) => r matches Err(err) && err@ == e,
                        }
                    },
                }
            }),
    {
        let ghost cfg0 = ConfigView {
            stack: self.stack@,
            table: table_view(self.methods@),
            frames: frames_view(frames@),
        };
        let mut work = frames;
        let mut fuel: u64 = limit;
        loop
            invariant
                fuel <= limit,
                cfg0.stack == old(self).stack@,
                cfg0.table == table_view(old(self).methods@),
                cfg0.frames == frames_view(frames@),
                run_steps(cfg0, (limit - fuel) as nat) == FlowView::Go(self.config(frames_view(work@))),
            decreases fuel,
        {
            let ghost k = (limit - fuel) as nat;
            let ghost pre = self.config(frames_view(work@));
            if work.len() == 0 {
                proof {
                    if fuel > 0 {
                        assert(run_steps(cfg0, k + 1) == FlowView::Done(
                            pre.stack,
                            pre.table,
                            None::<ErrorView>,
                        ));
                        lemma_run_steps_done(cfg0, k + 1, limit as nat);
                    }
                }
                return Ok(());
            }
            if fuel == 0 {
                return Err(Error::ResourceExhausted);
            }
            fuel = fuel - 1;
            let fr = work.pop().unwrap();
            proof {
                assert(frames_view(work@) =~= pre.frames.drop_last());
            }
            match fr {
                Frame::Run(b, ip) => {
                    proof {
                        lemma_items_view(b.0@);
                    }
                    if ip >= b.0.len() {
                        proof {
                            assert(step(pre) =~~= FlowView::Go(self.config(frames_view(work@))));
                        }
                    } else {
                        let item = b.0[ip].duplicate();
                        let ghost bv = b@;
                        work.push(Frame::Run(b, ip + 1));
                        proof {
                            assert(frames_view(work@) =~= pre.frames.drop_last().push(
                                FrameView::Run(bv, ip + 1),
                            ));
                        }
                        match item {
                            BlockItem::Literal(v) => {
                                self.stack.push(v);
                                proof {
                                    assert(step(pre) =~~= FlowView::Go(self.config(frames_view(work@))));
                                }
                            },
                            BlockItem::Call(name) => {
                                match self.lookup_method(&name) {
                                    None => {
                                        proof {
                                            assert(step(pre) =~~= FlowView::Done(
                                                self.stack@,
                                                self.table(),
                                                Some(ErrorView::UnknownMethod(name@)),
                                            ));
                                            lemma_run_steps_done(cfg0, k + 1, limit as nat);
                                        }
                                        return Err(Error::UnknownMethod(name));
                                    },
                                    Some(Method::Block(body)) => {
                                        work.push(Frame::Run(body, 0));
                                        proof {
                                            assert(step(pre) =~~= FlowView::Go(self.config(frames_view(work@))));
                                        }
                                    },
                                    Some(Method::Builtin(op)) => {
                                        if is_data_builtin(op) {
                                            let res = apply_builtin(op, &mut self.stack);
                                            match res {
                                                Ok(u) => {
                                                    proof {
                                                        assert(step(pre) =~~= FlowView::Go(self.config(frames_view(work@))));
                                                    }
                                                },
                                                Err(e) => {
                                                    proof {
                                                        assert(step(pre) =~~= FlowView::Done(
                                                            self.stack@,
                                                            self.table(),
                                                            Some(e@),
                                                        ));
                                                        lemma_run_steps_done(cfg0, k + 1, limit as nat);
                                                    }
                                                    return Err(e);
                                                },
                                            }
                                        } else {
                                            match self.apply_control(op, &mut work) {
                                                Ok(u) => {
                                                    proof {
                                                        assert(step(pre) =~~= FlowView::Go(self.config(frames_view(work@))));
                                                    }
                                                },
                                                Err(e) => {
                                                    proof {
                                                        assert(step(pre) =~~= FlowView::Done(
                                                            self.stack@,
                                                            self.table(),
                                                            Some(e@),
                                                        ));
                                                        lemma_run_steps_done(cfg0, k + 1, limit as nat);
                                                    }
                                                    return Err(e);
                                                },
                                            }
                                        }
                                    },
                                }
                            },
                        }
                    }
                },
                Frame::WhileDecide(cond, body) => {
                    match self.stack.pop() {
                        Err(e) => {
                            proof {
                                assert(step(pre) =~~= FlowView::Done(
                                    self.stack@,
                                    self.table(),
                                    Some(ErrorView::StackUnderflow),
                                ));
                                lemma_run_steps_done(cfg0, k + 1, limit as nat);
                            }
                            return Err(e);
                        },
                        Ok(StackItem::Boolean(v)) => {
                            if v {
                                let ghost cv = cond@;
                                let ghost bv = body@;
                                let cond2 = cond.duplicate();
                                work.push(Frame::WhileDecide(cond, body.duplicate()));
                                work.push(Frame::Run(cond2, 0));
                                work.push(Frame::Run(body, 0));
                                proof {
                                    assert(frames_view(work@) =~= pre.frames.drop_last().push(
                                        FrameView::WhileDecide(cv, bv),
                                    ).push(FrameView::Run(cv, 0)).push(FrameView::Run(bv, 0)));
                                    assert(step(pre) =~~= FlowView::Go(self.config(frames_view(work@))));
                                }
                            } else {
                                proof {
                                    assert(step(pre) =~~= FlowView::Go(self.config(frames_view(work@))));
                                }
                            }
                        },
                        Ok(other) => {
                            proof {
                                assert(step(pre) =~~= FlowView::Done(
                                    self.stack@,
                                    self.table(),
                                    Some(ErrorView::TypeError),
                                ));
                                lemma_run_steps_done(cfg0, k + 1, limit as nat);
                            }
                            return Err(Error::TypeError);
                        },
                    }
                },
                Frame::Times(b, n) => {
                    if n > 0 {
                        let ghost bv = b@;
                        let b2 = b.duplicate();
                        work.push(Frame::Times(b, n - 1));
                        work.push(Frame::Run(b2, 0));
                        proof {
                            assert(frames_view(work@) =~= pre.frames.drop_last().push(
                                FrameView::Times(bv, n - 1),
                            ).push(FrameView::Run(bv, 0)));
                            assert(step(pre) =~~= FlowView::Go(self.config(frames_view(work@))));
                        }
                    } else {
                        proof {
                            assert(step(pre) =~~= FlowView::Go(self.config(frames_view(work@))));
                        }
                    }
                },
            }
            proof {
                assert(run_steps(cfg0, k + 1) == FlowView::Go(self.config(frames_view(work@))));
            }
        }
    }

    /// One step of a control or definition builtin, exactly as
    /// [`step_builtin`] says; the frame stack already holds the frames that
    /// follow it.
    fn apply_control(&mut self, op: BuiltinOp, frames: &mut Vec<Frame>) -> (r: Result<(), Error>)
        requires
            !is_data_op(op),
        ensures
            match step_builtin(
                op,
                old(self).stack@,
                table_view(old(self).methods@),
                frames_view(old(frames)@),
            ) {
                FlowView::Go(c2) => {
                    &&& r is Ok
                    &&& final(self).stack@ == c2.stack
                    &&& final(self).table() == c2.table
                    &&& frames_view(final(frames)@) == c2.frames
                },
                FlowView::Done(st, tb, res) => {
                    &&& final(self).stack@ == st
                    &&& final(self).table() == tb
                    &&& res matches Some(e) && r matches Err(err) && err@ == e
                },
            },
    {
        match op {
            BuiltinOp::Fn => {
                let blk = match self.stack.pop() {
                    Ok(v) => v,
                    Err(e) => {
                        return Err(e);
                    },
                };
                let nm = match self.stack.pop() {
                    Ok(v) => v,
                    Err(e) => {
                        return Err(e);
                    },
                };
                match (nm, blk) {
                    (StackItem::Symbol(s), StackItem::Block(b)) => {
                        let entry = (s, Method::Block(b));
                        proof {
                            lemma_table_view_push(self.methods@, entry);
                        }
                        self.methods.push(entry);
                        Ok(())
                    },
                    _ => Err(Error::TypeError),
                }
            },
            BuiltinOp::If => {
                let blk = match self.stack.pop() {
                    Ok(v) => v,
                    Err(e) => {
                        return Err(e);
                    },
                };
                let cond = match self.stack.pop() {
                    Ok(v) => v,
                    Err(e) => {
                        return Err(e);
                    },
                };
                match (blk, cond) {
                    (StackItem::Block(b), StackItem::Boolean(v)) => {
                        let ghost fv = frames_view(frames@);
                        if v {
                            frames.push(Frame::Run(b, 0));
                            proof {
                                assert(frames_view(frames@) =~= fv.push(FrameView::Run(b@, 0)));
                            }
                        }
                        Ok(())
                    },
                    _ => Err(Error::TypeError),
                }
            },
            BuiltinOp::IfElse => {
                let else_b = match self.stack.pop() {
                    Ok(v) => v,
                    Err(e) => {
                        return Err(e);
                    },
                };
                let if_b = match self.stack.pop() {
                    Ok(v) => v,
                    Err(e) => {
                        return Err(e);
                    },
                };
                let cond = match self.stack.pop() {
                    Ok(v) => v,
                    Err(e) => {
                        return Err(e);
                    },
                };
                match (else_b, if_b, cond) {
                    (StackItem::Block(eb), StackItem::Block(ib), StackItem::Boolean(v)) => {
                        let ghost fv = frames_view(frames@);
                        let chosen = if v { ib } else { eb };
                        let ghost chv = chosen@;
                        frames.push(Frame::Run(chosen, 0));
                        proof {
                            assert(frames_view(frames@) =~= fv.push(FrameView::Run(chv, 0)));
                        }
                        Ok(())
                    },
                    _ => Err(Error::TypeError),
                }
            },
            BuiltinOp::While => {
                let action = match self.stack.pop() {
                    Ok(v) => v,
                    Err(e) => {
                        return Err(e);
                    },
                };
                let cond = match self.stack.pop() {
                    Ok(v) => v,
                    Err(e) => {
                        return Err(e);
                    },
                };
                match (action, cond) {
                    (StackItem::Block(a), StackItem::Block(c)) => {
                        let ghost fv = frames_view(frames@);
                        let ghost cv = c@;
                        let ghost av = a@;
                        let c2 = c.duplicate();
                        frames.push(Frame::WhileDecide(c, a));
                        frames.push(Frame::Run(c2, 0));
                        proof {
                            assert(frames_view(frames@) =~= fv.push(
                                FrameView::WhileDecide(cv, av),
                            ).push(FrameView::Run(cv, 0)));
                        }
                        Ok(())
                    },
                    _ => Err(Error::TypeError),
                }
            },
            _ => {
                // `times`: see the precondition; only it remains.
                let blk = match self.stack.pop() {
                    Ok(v) => v,
                    Err(e) => {
                        return Err(e);
                    },
                };
                let times = match self.stack.pop() {
                    Ok(v) => v,
                    Err(e) => {
                        return Err(e);
                    },
                };
                match (blk, times) {
                    (StackItem::Block(b), StackItem::Integer(n)) => {
                        let ghost fv = frames_view(frames@);
                        let ghost bv = b@;
                        frames.push(Frame::Times(b, n));
                        proof {
                            assert(frames_view(frames@) =~= fv.push(FrameView::Times(bv, n as int)));
                        }
                        Ok(())
                    },
                    _ => Err(Error::TypeError),
                }
            },
        }
    }

    /// Run one program element: push a literal, or resolve and invoke a
    /// call, under the default step budget.
    pub fn run(&mut self, item: &BlockItem) -> (r: Result<(), Error>)
        ensures
            ({
                let cfg0 = ConfigView {
                    stack: old(self).stack@,
                    table: table_view(old(self).methods@),
                    frames: seq![
                        FrameView::Run(BlockView { items: seq![item@] }, 0),
                    ],
                };
                match run_steps(cfg0, DEFAULT_STEP_LIMIT as nat) {
                    FlowView::Go(c) => {
                        &&& (if c.frames.len() == 0 {
                            r is Ok
                        } else {
                            r matches Err(e) && e is ResourceExhausted
                        })
                        &&& final(self).stack@ == c.stack
                        &&& final(self).table() == c.table
                    },
                    FlowView::Done(st, tb, res) => {
                        &&& final(self).stack@ == st
                        &&& final(self).table() == tb
                        &&& match res {
                            None => r is Ok,
                            Some(e) => r matches Err(err) && err@ == e,
                        }
                    },
                }
            }),
    {
        let mut items: Vec<BlockItem> = Vec::new();
        items.push(item.duplicate());
        let b = Block(items);
        proof {
            lemma_items_view(b.0@);
            assert(b@.items =~= seq![item@]);
        }
        let mut frames: Vec<Frame> = Vec::new();
        frames.push(Frame::Run(b, 0));
        proof {
            assert(frames_view(frames@) =~= seq![
                FrameView::Run(BlockView { items: seq![item@] }, 0),
            ]);
        }
        self.run_frames(frames, DEFAULT_STEP_LIMIT)
    }

    /// Run each item of the block in order, under the default step budget.
    /// The first failure ends the run and leaves the stack and the method
    /// table exactly as they stood at the failure.
    pub fn run_block(&mut self, block: &Block) -> (r: Result<(), Error>)
        ensures
            ({
                let cfg0 = ConfigView {
                    stack: old(self).stack@,
                    table: table_view(old(self).methods@),
                    frames: seq![FrameView::Run(block@, 0)],
                };
                match run_steps(cfg0, DEFAULT_STEP_LIMIT as nat) {
                    FlowView::Go(c) => {
                        &&& (if c.frames.len() == 0 {
                            r is Ok
                        } else {
                            r matches Err(e) && e is ResourceExhausted
                        })
                        &&& final(self).stack@ == c.stack
                        &&& final(self).table() == c.table
                    },
                    FlowView::Done(st, tb, res) => {
                        &&& final(self).stack@ == st
                        &&& final(self).table() == tb
                        &&& match res {
                            None => r is Ok,
                            Some(e) => r matches Err(err) && err@ == e,
                        }
                    },
                }
            }),
    {
        self.run_block_with_limit(block, DEFAULT_STEP_LIMIT)
    }

    /// Like [`Vm::run_block`], under a caller-chosen step budget.
    pub fn run_block_with_limit(&mut self, block: &Block, limit: u64) -> (r: Result<(), Error>)
        ensures
            ({
                let cfg0 = ConfigView {
                    stack: old(self).stack@,
                    table: table_view(old(self).methods@),
                    frames: seq![FrameView::Run(block@, 0)],
                };
                match run_steps(cfg0, limit as nat) {
                    FlowView::Go(c) => {
                        &&& (if c.frames.len() == 0 {
                            r is Ok
                        } else {
                            r matches Err(e) && e is ResourceExhausted
                        })
                        &&& final(self).stack@ == c.stack
                        &&& final(self).table() == c.table
                    },
                    FlowView::Done(st, tb, res) => {
                        &&& final(self).stack@ == st
                        &&& final(self).table() == tb
                        &&& match res {
                            None => r is Ok,
                            Some(e) => r matches Err(err) && err@ == e,
                        }
                    },
                }
            }),
    {
        let mut frames: Vec<Frame> = Vec::new();
        frames.push(Frame::Run(block.duplicate(), 0));
        proof {
            assert(frames_view(frames@) =~= seq![FrameView::Run(block@, 0)]);
        }
        self.run_frames(frames, limit)
    }
}

/// A call to a name absent from the method table always fails with
/// `UnknownMethod` carrying that name, whatever the rest of the state.
pub proof fn lemma_unknown_method(c: ConfigView, b: BlockView, ip: int, name: Seq<char>)
    requires
        c.frames.len() > 0,
        c.frames.last() == FrameView::Run(b, ip),
        0 <= ip < b.items.len(),
        b.items[ip] == BlockItemView::Call(name),
        !c.table.contains_key(name),
    ensures
        step(c) == FlowView::Done(c.stack, c.table, Some(ErrorView::UnknownMethod(name))),
{
}

/// Running the one-element program that calls an unknown name fails with
/// `UnknownMethod` carrying that name and leaves stack and table unchanged,
/// under any positive step budget.
pub proof fn lemma_unknown_method_program(
    stack: Seq<StackItemView>,
    table: Map<Seq<char>, MethodView>,
    name: Seq<char>,
    n: nat,
)
    requires
        !table.contains_key(name),
        n >= 1,
    ensures
        run_steps(
            ConfigView {
                stack,
                table,
                frames: seq![
                    FrameView::Run(BlockView { items: seq![BlockItemView::Call(name)] }, 0),
                ],
            },
            n,
        ) == FlowView::Done(stack, table, Some(ErrorView::UnknownMethod(name))),
{
    let c = ConfigView {
        stack,
        table,
        frames: seq![FrameView::Run(BlockView { items: seq![BlockItemView::Call(name)] }, 0)],
    };
    assert(run_steps(c, 0) == FlowView::Go(c));
    assert(run_steps(c, 1) == step(c));
    lemma_run_steps_done(c, 1, n);
}

} // verus!
