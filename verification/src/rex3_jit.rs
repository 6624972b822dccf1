//! Bookkeeping of the draw-shader compiler: which shapes are compiled, which are
//! waiting, and what the bounded queue between the draw path and the compiler
//! thread holds.
//!
//! The compiler thread takes one request at a time, compiles it, and reports the
//! outcome. The draw path looks shapes up and requests the ones that it misses; it
//! must never wait, so a request that finds the queue full is dropped and the next
//! draw of that shape asks again.
use vstd::prelude::*;
use crate::shape_map::Shape;
use crate::shape_map::ShapeMap;
use crate::text::owned;
use crate::text::push_decimal;

verus! {

/// Requests that the queue to the compiler holds at most.
pub const QUEUE_SLOTS: usize = 256;

/// A compiled draw shader.
#[derive(Clone, Copy, Debug, PartialEq, Eq, Structural)]
pub struct CompiledShader {
    /// Address of the compiled code.
    pub entry: usize,
    /// Size of the compiled code in bytes.
    pub code_bytes: u32,
}

/// What the compiler has made of one draw shape.
#[derive(Clone, Copy, Debug, PartialEq, Eq, Structural)]
pub enum ShaderState {
    /// Requested; no shader yet.
    Queued,
    /// Compiled and dispatchable.
    Compiled(CompiledShader),
    /// Compiled but turned off; kept so that it can be turned on again without
    /// compiling.
    Disabled(CompiledShader),
    /// The compiler declined this shape. Never retried.
    Failed,
}

impl ShaderState {
    /// The compiled shader, if there is one and it is enabled.
    pub fn entry(&self) -> (r: Option<CompiledShader>)
        ensures
            r == match *self {
                ShaderState::Compiled(s) => Some(s),
                _ => None,
            },
    {
        match self {
            ShaderState::Compiled(s) => Some(*s),
            _ => None,
        }
    }

    /// The name of the state.
    pub open spec fn name(self) -> Seq<char> {
        match self {
            ShaderState::Queued => "queued"@,
            ShaderState::Compiled(_) => "compiled"@,
            ShaderState::Disabled(_) => "disabled"@,
            ShaderState::Failed => "failed"@,
        }
    }

    pub fn label(&self) -> (r: &'static str)
        ensures
            r@ == self.name(),
    {
        match self {
            ShaderState::Queued => "queued",
            ShaderState::Compiled(_) => "compiled",
            ShaderState::Disabled(_) => "disabled",
            ShaderState::Failed => "failed",
        }
    }

    /// The size of the code, 0 where there is none.
    pub open spec fn size(self) -> u32 {
        match self {
            ShaderState::Compiled(s) => s.code_bytes,
            ShaderState::Disabled(s) => s.code_bytes,
            _ => 0,
        }
    }

    /// The state once the shader is turned off.
    pub open spec fn turned_off(self) -> ShaderState {
        match self {
            ShaderState::Compiled(s) => ShaderState::Disabled(s),
            other => other,
        }
    }

    /// The state once the shader is turned on.
    pub open spec fn turned_on(self) -> ShaderState {
        match self {
            ShaderState::Disabled(s) => ShaderState::Compiled(s),
            other => other,
        }
    }
}

/// The state of every known draw shape.
pub struct ShaderStore {
    pub shaders: ShapeMap<ShaderState>,
}

/// What the compiler thread is asked to do.
#[derive(Clone, Copy, Debug, PartialEq, Eq, Structural)]
pub enum CompileRequest {
    Compile(u32, u32, u32),
    Shutdown,
}

/// What became of a request.
#[derive(Clone, Copy, Debug, PartialEq, Eq, Structural)]
pub enum SendState {
    /// The shape is known already; there is nothing to request.
    Known,
    /// The request is in the queue.
    Sent,
    /// The shape is marked as queued, and its request waits for room.
    Waiting,
    /// The compiler is gone; the mark was taken back.
    Closed,
}

/// One line of the shader listing.
#[derive(Clone, Copy, Debug)]
pub struct ShaderInfo {
    pub dm0: u32,
    pub dm1: u32,
    pub cm: u32,
    /// "compiled", "disabled", "failed" or "queued".
    pub status: &'static str,
    /// Size of the code in bytes, 0 where there is none.
    pub code_bytes: u32,
}

/// The shader bookkeeping of one graphics board.
pub struct RexJit {
    store: ShaderStore,
    pending: Vec<CompileRequest>,
    slots: usize,
    compiling: Option<Shape>,
    open: bool,
}

/// The shape that a request asks for.
pub open spec fn asked(r: CompileRequest) -> Option<Shape> {
    match r {
        CompileRequest::Compile(dm0, dm1, cm) => Some((dm0, dm1, cm)),
        CompileRequest::Shutdown => None,
    }
}

/// A request for `k` is among `reqs`.
pub open spec fn asks_for(reqs: Seq<CompileRequest>, k: Shape) -> bool {
    exists|i: int| 0 <= i < reqs.len() && asked(#[trigger] reqs[i]) == Some(k)
}

/// The test for shapes that are compiled and enabled.
pub open spec fn compiled_in(m: Map<Shape, ShaderState>) -> spec_fn(Shape) -> bool {
    |k: Shape| m[k] is Compiled
}

/// The test for shapes that wait for the compiler.
pub open spec fn queued_in(m: Map<Shape, ShaderState>) -> spec_fn(Shape) -> bool {
    |k: Shape| m[k] is Queued
}

/// The shapes of `keys`, in order, whose state is compiled.
pub open spec fn dispatchable(m: Map<Shape, ShaderState>, keys: Seq<Shape>) -> Seq<Shape> {
    keys.filter(compiled_in(m))
}

/// The shapes of `keys`, in order, that wait for the compiler.
pub open spec fn waiting_shapes(m: Map<Shape, ShaderState>, keys: Seq<Shape>) -> Seq<Shape> {
    keys.filter(queued_in(m))
}

/// A line of the listing says what the map says of its shape.
pub open spec fn describes(info: ShaderInfo, k: Shape, st: ShaderState) -> bool {
    &&& (info.dm0, info.dm1, info.cm) == k
    &&& info.status@ == st.name()
    &&& info.code_bytes == st.size()
}

/// The states and the queue once the draw path asked for a shape; `fits` says that the compiler
/// takes requests and the queue has room.
pub open spec fn requested(
    m: Map<Shape, ShaderState>,
    q: Seq<CompileRequest>,
    fits: bool,
    k: Shape,
) -> (Map<Shape, ShaderState>, Seq<CompileRequest>) {
    if m.contains_key(k) || !fits {
        (m, q)
    } else {
        (m.insert(k, ShaderState::Queued), q.push(CompileRequest::Compile(k.0, k.1, k.2)))
    }
}

/// What becomes of a request that can wait, by whether its shape is known, the compiler takes
/// requests and the queue has room.
pub open spec fn send_state(known: bool, open: bool, room: bool) -> SendState {
    if known {
        SendState::Known
    } else if !open {
        SendState::Closed
    } else if room {
        SendState::Sent
    } else {
        SendState::Waiting
    }
}

/// The request that is taken from a queue, and what is left of it.
pub open spec fn taken(q: Seq<CompileRequest>) -> (Option<CompileRequest>, Seq<CompileRequest>) {
    if q.len() == 0 {
        (None, q)
    } else {
        (Some(q[0]), q.drop_first())
    }
}

/// The states once the compiler is through with the shape that it was at.
pub open spec fn finished(
    m: Map<Shape, ShaderState>,
    at: Option<Shape>,
    outcome: Option<(usize, u32)>,
) -> Map<Shape, ShaderState> {
    match at {
        Some(k) => m.insert(
            k,
            match outcome {
                Some((entry, code_bytes)) => ShaderState::Compiled(
                    CompiledShader { entry, code_bytes },
                ),
                None => ShaderState::Failed,
            },
        ),
        None => m,
    }
}

/// The entry that a shape is dispatched to.
pub open spec fn dispatched(m: Map<Shape, ShaderState>, k: Shape) -> Option<usize> {
    if m.contains_key(k) {
        match m[k] {
            ShaderState::Compiled(s) => Some(s.entry),
            _ => None,
        }
    } else {
        None
    }
}

/// What is known of a shape: that it has a shader, that it has none, or nothing yet.
pub open spec fn settled(m: Map<Shape, ShaderState>, k: Shape) -> Option<bool> {
    if m.contains_key(k) {
        match m[k] {
            ShaderState::Compiled(_) => Some(true),
            ShaderState::Disabled(_) => Some(true),
            ShaderState::Failed => Some(false),
            ShaderState::Queued => None,
        }
    } else {
        None
    }
}

impl RexJit {
    /// The state of every known shape.
    pub closed spec fn states(self) -> Map<Shape, ShaderState> {
        self.store.shaders@
    }

    /// The known shapes in ascending order.
    pub closed spec fn shapes(self) -> Seq<Shape> {
        self.store.shaders.sorted_keys()
    }

    /// The requests in the queue, oldest first.
    pub closed spec fn queue(self) -> Seq<CompileRequest> {
        self.pending@
    }

    /// The requests that the queue holds at most.
    pub closed spec fn room(self) -> nat {
        self.slots as nat
    }

    /// The shape that the compiler is at.
    pub closed spec fn in_flight(self) -> Option<Shape> {
        self.compiling
    }

    /// The compiler takes requests.
    pub closed spec fn is_open(self) -> bool {
        self.open
    }

    /// Every request that is in the queue or at the compiler asks for a shape that
    /// is marked as queued, and no two ask for the same. The queue is within its
    /// bound.
    pub closed spec fn wf(self) -> bool {
        let m = self.store.shaders@;
        let q = self.pending@;
        &&& self.store.shaders.wf()
        &&& q.len() <= self.slots
        &&& forall|i: int|
            0 <= i < q.len() && (#[trigger] asked(q[i])) is Some ==> m.contains_key(
                asked(q[i]).unwrap(),
            ) && m[asked(q[i]).unwrap()] == ShaderState::Queued
        &&& forall|i: int, j: int|
            0 <= i < j < q.len() && (#[trigger] asked(q[i])) is Some ==> asked(q[i])
                != #[trigger] asked(q[j])
        &&& self.compiling matches Some(k) ==> m.contains_key(k) && m[k] == ShaderState::Queued
            && !asks_for(q, k)
    }

    /// The shape is marked as queued, and no request for it is on its way: a
    /// sender holds it, waiting for room.
    pub open spec fn held_by_sender(self, k: Shape) -> bool {
        &&& self.states().contains_key(k) && self.states()[k] == ShaderState::Queued
        &&& !asks_for(self.queue(), k)
        &&& self.in_flight() != Some(k)
    }

    /// What every state keeps: the queue fits in its slots, a shape that is asked for or
    /// is being compiled is marked as queued, and the shapes are listed in order.
    pub proof fn law_requests_belong_to_queued_shapes(self)
        requires
            self.wf(),
        ensures
            self.queue().len() <= self.room(),
            forall|k: Shape|
                asks_for(self.queue(), k) ==> #[trigger] self.states().contains_key(k)
                    && self.states()[k] == ShaderState::Queued,
            self.in_flight() matches Some(k) ==> self.states().contains_key(k) && self.states()[k]
                == ShaderState::Queued,
            crate::shape_map::ascending(self.shapes()),
            self.shapes().to_set() == self.states().dom(),
    {
        self.store.shaders.lemma_sorted_keys();
    }

    /// A compiler with an empty queue of this many slots.
    pub fn with_slots(slots: usize) -> (r: Self)
        ensures
            r.wf(),
            r.states() == Map::<Shape, ShaderState>::empty(),
            r.queue() == Seq::<CompileRequest>::empty(),
            r.room() == slots,
            r.in_flight() is None,
            r.is_open(),
    {
        RexJit {
            store: ShaderStore { shaders: ShapeMap::new() },
            pending: Vec::new(),
            slots,
            compiling: None,
            open: true,
        }
    }

    /// A compiler with nothing compiled and nothing queued.
    pub fn new() -> (r: Self)
        ensures
            r.wf(),
            r.states() == Map::<Shape, ShaderState>::empty(),
            r.queue() == Seq::<CompileRequest>::empty(),
            r.room() == QUEUE_SLOTS,
            r.room() == 256,
            r.in_flight() is None,
            r.is_open(),
    {
        RexJit::with_slots(QUEUE_SLOTS)
    }

    /// The entry of a shape that is compiled and enabled.
    pub fn lookup(&self, dm0: u32, dm1: u32, cm: u32) -> (r: Option<usize>)
        requires
            self.wf(),
        ensures
            r == {
                let k = (dm0, dm1, cm);
                if self.states().contains_key(k) {
                    match self.states()[k] {
                        ShaderState::Compiled(s) => Some(s.entry),
                        _ => None,
                    }
                } else {
                    None
                }
            },
            r == dispatched(self.states(), (dm0, dm1, cm)),
    {
        match self.store.shaders.get((dm0, dm1, cm)) {
            Some(st) => match st.entry() {
                Some(s) => Some(s.entry),
                None => None,
            },
            None => None,
        }
    }

    /// Turns a compiled shader off: the shape is drawn by the generic path.
    pub fn disable_shader(&mut self, dm0: u32, dm1: u32, cm: u32)
        requires
            old(self).wf(),
        ensures
            final(self).wf(),
            final(self).states() == {
                let k = (dm0, dm1, cm);
                let m = old(self).states();
                if m.contains_key(k) {
                    m.insert(k, m[k].turned_off())
                } else {
                    m
                }
            },
            final(self).queue() == old(self).queue(),
            final(self).room() == old(self).room(),
            final(self).in_flight() == old(self).in_flight(),
            final(self).is_open() == old(self).is_open(),
    {
        let k: Shape = (dm0, dm1, cm);
        let ghost m = self.store.shaders@;
        let next = match self.store.shaders.get(k) {
            Some(ShaderState::Compiled(s)) => ShaderState::Disabled(*s),
            Some(other) => *other,
            None => {
                return ;
            },
        };
        self.store.shaders.insert(k, next);
        proof {
            assert(next == m[k].turned_off());
        }
    }

    /// Turns a shader on again that was turned off.
    pub fn enable_shader(&mut self, dm0: u32, dm1: u32, cm: u32)
        requires
            old(self).wf(),
        ensures
            final(self).wf(),
            final(self).states() == {
                let k = (dm0, dm1, cm);
                let m = old(self).states();
                if m.contains_key(k) {
                    m.insert(k, m[k].turned_on())
                } else {
                    m
                }
            },
            final(self).queue() == old(self).queue(),
            final(self).room() == old(self).room(),
            final(self).in_flight() == old(self).in_flight(),
            final(self).is_open() == old(self).is_open(),
    {
        let k: Shape = (dm0, dm1, cm);
        let ghost m = self.store.shaders@;
        let next = match self.store.shaders.get(k) {
            Some(ShaderState::Disabled(s)) => ShaderState::Compiled(*s),
            Some(other) => *other,
            None => {
                return ;
            },
        };
        self.store.shaders.insert(k, next);
        proof {
            assert(next == m[k].turned_on());
        }
    }

    /// All known shapes with their states, sorted.
    pub fn shader_list(&self) -> (r: Vec<ShaderInfo>)
        requires
            self.wf(),
        ensures
            r.len() == self.shapes().len(),
            forall|i: int|
                0 <= i < r.len() ==> describes(
                    #[trigger] r[i],
                    self.shapes()[i],
                    self.states()[self.shapes()[i]],
                ),
    {
        let mut out: Vec<ShaderInfo> = Vec::new();
        let mut i: usize = 0;
        let n: usize = self.store.shaders.len();
        while i < n
            invariant
                self.wf(),
                n == self.shapes().len(),
                i <= n,
                out.len() == i,
                forall|j: int|
                    0 <= j < i ==> describes(
                        #[trigger] out[j],
                        self.shapes()[j],
                        self.states()[self.shapes()[j]],
                    ),
            decreases n - i,
        {
            let (dm0, dm1, cm) = self.store.shaders.key_at(i);
            let st = self.store.shaders.value_at(i);
            let code_bytes: u32 = match st {
                ShaderState::Compiled(s) => s.code_bytes,
                ShaderState::Disabled(s) => s.code_bytes,
                _ => 0,
            };
            out.push(ShaderInfo { dm0, dm1, cm, status: st.label(), code_bytes });
            i = i + 1;
        }
        out
    }

    /// Marks a shape as queued, unless it is known.
    fn mark(&mut self, k: Shape) -> (r: bool)
        requires
            old(self).wf(),
        ensures
            final(self).wf(),
            r == !old(self).states().contains_key(k),
            final(self).states() == if r {
                old(self).states().insert(k, ShaderState::Queued)
            } else {
                old(self).states()
            },
            r ==> final(self).held_by_sender(k),
            final(self).queue() == old(self).queue(),
            final(self).room() == old(self).room(),
            final(self).in_flight() == old(self).in_flight(),
            final(self).is_open() == old(self).is_open(),
    {
        if self.store.shaders.contains_key(k) {
            return false;
        }
        proof {
            if asks_for(self.pending@, k) {
                let i = choose|i: int|
                    0 <= i < self.pending@.len() && asked(#[trigger] self.pending@[i]) == Some(k);
                assert(self.store.shaders@.contains_key(asked(self.pending@[i]).unwrap()));
            }
        }
        self.store.shaders.insert(k, ShaderState::Queued);
        true
    }

    /// Puts a request for a shape that a sender holds into the queue, if there is
    /// room.
    fn offer(&mut self, k: Shape) -> (r: bool)
        requires
            old(self).wf(),
            old(self).held_by_sender(k),
        ensures
            final(self).wf(),
            r == (old(self).is_open() && old(self).queue().len() < old(self).room()),
            final(self).states() == old(self).states(),
            final(self).queue() == if r {
                old(self).queue().push(CompileRequest::Compile(k.0, k.1, k.2))
            } else {
                old(self).queue()
            },
            final(self).room() == old(self).room(),
            final(self).in_flight() == old(self).in_flight(),
            final(self).is_open() == old(self).is_open(),
    {
        if !self.open || self.pending.len() >= self.slots {
            return false;
        }
        let ghost before = *self;
        self.pending.push(CompileRequest::Compile(k.0, k.1, k.2));
        proof {
            let q = before.pending@;
            let n = self.pending@;
            let m = self.store.shaders@;
            assert forall|i: int, j: int|
                0 <= i < j < n.len() && (#[trigger] asked(n[i])) is Some implies asked(n[i])
                != #[trigger] asked(n[j]) by {
                assert(n[i] == q[i]);
                if j < q.len() {
                    assert(n[j] == q[j]);
                }
            }
            assert forall|i: int|
                0 <= i < n.len() && (#[trigger] asked(n[i])) is Some implies m.contains_key(
                asked(n[i]).unwrap(),
            ) && m[asked(n[i]).unwrap()] == ShaderState::Queued by {
                if i < q.len() {
                    assert(n[i] == q[i]);
                }
            }
            if let Some(c) = self.compiling {
                if asks_for(n, c) {
                    let i = choose|i: int|
                        0 <= i < n.len() && asked(#[trigger] n[i]) == Some(c);
                    if i < q.len() {
                        assert(n[i] == q[i]);
                        assert(asks_for(q, c));
                    }
                }
            }
        }
        true
    }

    /// Takes back the mark of a shape that a sender holds.
    fn withdraw(&mut self, k: Shape)
        requires
            old(self).wf(),
            old(self).held_by_sender(k),
        ensures
            final(self).wf(),
            final(self).states() == old(self).states().remove(k),
            final(self).queue() == old(self).queue(),
            final(self).room() == old(self).room(),
            final(self).in_flight() == old(self).in_flight(),
            final(self).is_open() == old(self).is_open(),
    {
        self.store.shaders.remove(k);
    }

    /// Requests a shape for the draw path, which must not wait. A known shape is
    /// left alone. Where the queue has no room the mark is taken back, so that a
    /// later draw asks again.
    pub fn request_compile(&mut self, dm0: u32, dm1: u32, cm: u32)
        requires
            old(self).wf(),
        ensures
            final(self).wf(),
            ({
                let k = (dm0, dm1, cm);
                let fits = old(self).is_open() && old(self).queue().len() < old(self).room();
                if old(self).states().contains_key(k) || !fits {
                    &&& final(self).states() == old(self).states()
                    &&& final(self).queue() == old(self).queue()
                } else {
                    &&& final(self).states() == old(self).states().insert(k, ShaderState::Queued)
                    &&& final(self).queue() == old(self).queue().push(
                        CompileRequest::Compile(dm0, dm1, cm),
                    )
                }
            }),
            (final(self).states(), final(self).queue()) == requested(
                old(self).states(),
                old(self).queue(),
                old(self).is_open() && old(self).queue().len() < old(self).room(),
                (dm0, dm1, cm),
            ),
            final(self).room() == old(self).room(),
            final(self).in_flight() == old(self).in_flight(),
            final(self).is_open() == old(self).is_open(),
    {
        let k: Shape = (dm0, dm1, cm);
        if !self.mark(k) {
            return ;
        }
        if !self.offer(k) {
            self.withdraw(k);
            proof {
                assert(self.states() =~= old(self).states());
            }
        }
    }

    /// Requests a shape for warm-up, which can wait. Where the queue has no room
    /// the shape stays marked and [`RexJit::retry_send`] sends it later; where the
    /// compiler is gone the mark is taken back.
    pub fn request_compile_blocking(&mut self, dm0: u32, dm1: u32, cm: u32) -> (r: SendState)
        requires
            old(self).wf(),
        ensures
            final(self).wf(),
            ({
                let k = (dm0, dm1, cm);
                if old(self).states().contains_key(k) {
                    &&& r == SendState::Known
                    &&& final(self).states() == old(self).states()
                    &&& final(self).queue() == old(self).queue()
                } else if !old(self).is_open() {
                    &&& r == SendState::Closed
                    &&& final(self).states() == old(self).states()
                    &&& final(self).queue() == old(self).queue()
                } else if old(self).queue().len() < old(self).room() {
                    &&& r == SendState::Sent
                    &&& final(self).states() == old(self).states().insert(k, ShaderState::Queued)
                    &&& final(self).queue() == old(self).queue().push(
                        CompileRequest::Compile(dm0, dm1, cm),
                    )
                } else {
                    &&& r == SendState::Waiting
                    &&& final(self).states() == old(self).states().insert(k, ShaderState::Queued)
                    &&& final(self).queue() == old(self).queue()
                    &&& final(self).held_by_sender(k)
                }
            }),
            r == send_state(
                old(self).states().contains_key((dm0, dm1, cm)),
                old(self).is_open(),
                old(self).queue().len() < old(self).room(),
            ),
            final(self).room() == old(self).room(),
            final(self).in_flight() == old(self).in_flight(),
            final(self).is_open() == old(self).is_open(),
    {
        let k: Shape = (dm0, dm1, cm);
        if !self.mark(k) {
            return SendState::Known;
        }
        self.send(k)
    }

    fn send(&mut self, k: Shape) -> (r: SendState)
        requires
            old(self).wf(),
            old(self).held_by_sender(k),
        ensures
            final(self).wf(),
            if !old(self).is_open() {
                &&& r == SendState::Closed
                &&& final(self).states() == old(self).states().remove(k)
                &&& final(self).queue() == old(self).queue()
            } else if old(self).queue().len() < old(self).room() {
                &&& r == SendState::Sent
                &&& final(self).states() == old(self).states()
                &&& final(self).queue() == old(self).queue().push(
                    CompileRequest::Compile(k.0, k.1, k.2),
                )
            } else {
                &&& r == SendState::Waiting
                &&& final(self).states() == old(self).states()
                &&& final(self).queue() == old(self).queue()
                &&& final(self).held_by_sender(k)
            },
            final(self).room() == old(self).room(),
            final(self).in_flight() == old(self).in_flight(),
            final(self).is_open() == old(self).is_open(),
    {
        if !self.open {
            self.withdraw(k);
            return SendState::Closed;
        }
        if self.offer(k) {
            SendState::Sent
        } else {
            SendState::Waiting
        }
    }

    fn pends(&self, k: Shape) -> (r: bool)
        ensures
            r == asks_for(self.queue(), k),
    {
        let mut i: usize = 0;
        while i < self.pending.len()
            invariant
                i <= self.pending.len(),
                forall|j: int| 0 <= j < i ==> asked(#[trigger] self.pending@[j]) != Some(k),
            decreases self.pending.len() - i,
        {
            if let CompileRequest::Compile(dm0, dm1, cm) = self.pending[i] {
                if dm0 == k.0 && dm1 == k.1 && cm == k.2 {
                    proof {
                        assert(asked(self.pending@[i as int]) == Some(k));
                    }
                    return true;
                }
            }
            i = i + 1;
        }
        false
    }

    /// Tries again to send a request that waits for room. A shape that no sender
    /// holds is left alone.
    pub fn retry_send(&mut self, dm0: u32, dm1: u32, cm: u32) -> (r: SendState)
        requires
            old(self).wf(),
        ensures
            final(self).wf(),
            ({
                let k = (dm0, dm1, cm);
                if !old(self).held_by_sender(k) {
                    &&& r == SendState::Known
                    &&& final(self).states() == old(self).states()
                    &&& final(self).queue() == old(self).queue()
                } else if !old(self).is_open() {
                    &&& r == SendState::Closed
                    &&& final(self).states() == old(self).states().remove(k)
                    &&& final(self).queue() == old(self).queue()
                } else if old(self).queue().len() < old(self).room() {
                    &&& r == SendState::Sent
                    &&& final(self).states() == old(self).states()
                    &&& final(self).queue() == old(self).queue().push(
                        CompileRequest::Compile(dm0, dm1, cm),
                    )
                } else {
                    &&& r == SendState::Waiting
                    &&& final(self).states() == old(self).states()
                    &&& final(self).queue() == old(self).queue()
                }
            }),
            final(self).room() == old(self).room(),
            final(self).in_flight() == old(self).in_flight(),
            final(self).is_open() == old(self).is_open(),
    {
        let k: Shape = (dm0, dm1, cm);
        let marked = match self.store.shaders.get(k) {
            Some(ShaderState::Queued) => true,
            _ => false,
        };
        let at_compiler = match self.compiling {
            Some(c) => c.0 == k.0 && c.1 == k.1 && c.2 == k.2,
            None => false,
        };
        if !marked || at_compiler || self.pends(k) {
            return SendState::Known;
        }
        self.send(k)
    }

    /// One shape of the saved profile, at start. A shape that the precompiled table
    /// serves is skipped, since nothing would dispatch a second shader for it.
    pub fn warm_up(&mut self, dm0: u32, dm1: u32, cm: u32, precompiled: bool) -> (r: SendState)
        requires
            old(self).wf(),
        ensures
            final(self).wf(),
            ({
                let k = (dm0, dm1, cm);
                if precompiled || old(self).states().contains_key(k) {
                    &&& r == SendState::Known
                    &&& final(self).states() == old(self).states()
                    &&& final(self).queue() == old(self).queue()
                } else if !old(self).is_open() {
                    &&& r == SendState::Closed
                    &&& final(self).states() == old(self).states()
                    &&& final(self).queue() == old(self).queue()
                } else if old(self).queue().len() < old(self).room() {
                    &&& r == SendState::Sent
                    &&& final(self).states() == old(self).states().insert(k, ShaderState::Queued)
                    &&& final(self).queue() == old(self).queue().push(
                        CompileRequest::Compile(dm0, dm1, cm),
                    )
                } else {
                    &&& r == SendState::Waiting
                    &&& final(self).states() == old(self).states().insert(k, ShaderState::Queued)
                    &&& final(self).queue() == old(self).queue()
                    &&& final(self).held_by_sender(k)
                }
            }),
            final(self).room() == old(self).room(),
            final(self).in_flight() == old(self).in_flight(),
            final(self).is_open() == old(self).is_open(),
    {
        if precompiled {
            return SendState::Known;
        }
        self.request_compile_blocking(dm0, dm1, cm)
    }

    /// The compiler thread takes the oldest request. It gets none while it is at a
    /// shape, and none behind a stop.
    pub fn next_request(&mut self) -> (r: Option<CompileRequest>)
        requires
            old(self).wf(),
        ensures
            final(self).wf(),
            final(self).states() == old(self).states(),
            if !old(self).is_open() || old(self).in_flight() is Some || old(self).queue().len()
                == 0 {
                &&& r is None
                &&& final(self).queue() == old(self).queue()
                &&& final(self).in_flight() == old(self).in_flight()
                &&& final(self).is_open() == old(self).is_open()
            } else {
                let first = old(self).queue()[0];
                &&& r == Some(first)
                &&& final(self).queue() == old(self).queue().drop_first()
                &&& final(self).in_flight() == asked(first)
                &&& final(self).is_open() == (first != CompileRequest::Shutdown)
            },
            old(self).is_open() && old(self).in_flight() is None ==> (r, final(self).queue())
                == taken(old(self).queue()),
            final(self).room() == old(self).room(),
    {
        if !self.open || self.compiling.is_some() || self.pending.len() == 0 {
            return None;
        }
        let ghost before = *self;
        let first = self.pending.remove(0);
        match first {
            CompileRequest::Compile(dm0, dm1, cm) => {
                self.compiling = Some((dm0, dm1, cm));
            },
            CompileRequest::Shutdown => {
                self.open = false;
            },
        }
        proof {
            let q = before.pending@;
            let n = self.pending@;
            let m = self.store.shaders@;
            assert(n =~= q.drop_first());
            assert forall|i: int|
                0 <= i < n.len() && (#[trigger] asked(n[i])) is Some implies m.contains_key(
                asked(n[i]).unwrap(),
            ) && m[asked(n[i]).unwrap()] == ShaderState::Queued by {
                assert(n[i] == q[i + 1]);
            }
            assert forall|i: int, j: int|
                0 <= i < j < n.len() && (#[trigger] asked(n[i])) is Some implies asked(n[i])
                != #[trigger] asked(n[j]) by {
                assert(n[i] == q[i + 1] && n[j] == q[j + 1]);
                assert(asked(q[i + 1]) != asked(q[j + 1]));
            }
            if let Some(k) = self.compiling {
                assert(asked(q[0]) == Some(k));
                assert(m.contains_key(k) && m[k] == ShaderState::Queued);
                if asks_for(n, k) {
                    let i = choose|i: int| 0 <= i < n.len() && asked(#[trigger] n[i]) == Some(k);
                    assert(n[i] == q[i + 1]);
                    assert(asked(q[0]) != asked(q[i + 1]));
                }
            }
        }
        Some(first)
    }

    /// The compiler thread reports the outcome for the shape that it is at: the
    /// entry and the size of the code, or that it declined. The result is the
    /// number of shapes that are known then.
    pub fn finish_compile(&mut self, outcome: Option<(usize, u32)>) -> (r: usize)
        requires
            old(self).wf(),
        ensures
            final(self).wf(),
            final(self).states() == match old(self).in_flight() {
                Some(k) => old(self).states().insert(
                    k,
                    match outcome {
                        Some((entry, code_bytes)) => ShaderState::Compiled(
                            CompiledShader { entry, code_bytes },
                        ),
                        None => ShaderState::Failed,
                    },
                ),
                None => old(self).states(),
            },
            final(self).in_flight() is None,
            final(self).queue() == old(self).queue(),
            final(self).room() == old(self).room(),
            final(self).is_open() == old(self).is_open(),
            r == final(self).states().dom().len(),
            final(self).states() == finished(old(self).states(), old(self).in_flight(), outcome),
    {
        match self.compiling {
            Some(k) => {
                let st = match outcome {
                    Some((entry, code_bytes)) => ShaderState::Compiled(
                        CompiledShader { entry, code_bytes },
                    ),
                    None => ShaderState::Failed,
                };
                self.compiling = None;
                let ghost q = self.pending@;
                proof {
                    assert forall|i: int|
                        0 <= i < q.len() && (#[trigger] asked(q[i])) is Some implies asked(q[i])
                        != Some(k) by {
                        if asked(q[i]) == Some(k) {
                            assert(asks_for(q, k));
                        }
                    }
                }
                self.store.shaders.insert(k, st);
            },
            None => {},
        }
        self.store.shaders.len()
    }

    /// Asks the compiler thread to stop, if it still takes requests and the queue has
    /// room for that.
    pub fn shutdown(&mut self)
        requires
            old(self).wf(),
        ensures
            final(self).wf(),
            final(self).states() == old(self).states(),
            final(self).queue() == if old(self).is_open() && old(self).queue().len() < old(
                self,
            ).room() {
                old(self).queue().push(CompileRequest::Shutdown)
            } else {
                old(self).queue()
            },
            final(self).room() == old(self).room(),
            final(self).in_flight() == old(self).in_flight(),
            final(self).is_open() == old(self).is_open(),
    {
        if self.open && self.pending.len() < self.slots {
            let ghost q = self.pending@;
            self.pending.push(CompileRequest::Shutdown);
            proof {
                let n = self.pending@;
                let m = self.store.shaders@;
                assert forall|i: int|
                    0 <= i < n.len() && (#[trigger] asked(n[i])) is Some implies m.contains_key(
                    asked(n[i]).unwrap(),
                ) && m[asked(n[i]).unwrap()] == ShaderState::Queued by {
                    assert(n[i] == q[i]);
                }
                assert forall|i: int, j: int|
                    0 <= i < j < n.len() && (#[trigger] asked(n[i])) is Some implies asked(n[i])
                    != #[trigger] asked(n[j]) by {
                    assert(n[i] == q[i]);
                    if j < q.len() {
                        assert(n[j] == q[j]);
                    }
                }
                if let Some(c) = self.compiling {
                    if asks_for(n, c) {
                        let i = choose|i: int|
                            0 <= i < n.len() && asked(#[trigger] n[i]) == Some(c);
                        assert(n[i] == q[i]);
                        assert(asks_for(q, c));
                    }
                }
            }
        }
    }

    /// Whether a shape has been compiled: yes for one that has a shader, no for one
    /// that failed, and nothing yet for one that is queued or unknown.
    pub fn wait_compiled(&self, dm0: u32, dm1: u32, cm: u32) -> (r: Option<bool>)
        requires
            self.wf(),
        ensures
            r == {
                let k = (dm0, dm1, cm);
                if !self.states().contains_key(k) {
                    None
                } else {
                    match self.states()[k] {
                        ShaderState::Compiled(_) => Some(true),
                        ShaderState::Disabled(_) => Some(true),
                        ShaderState::Failed => Some(false),
                        ShaderState::Queued => None,
                    }
                }
            },
            r == settled(self.states(), (dm0, dm1, cm)),
    {
        match self.store.shaders.get((dm0, dm1, cm)) {
            Some(ShaderState::Compiled(_)) => Some(true),
            Some(ShaderState::Disabled(_)) => Some(true),
            Some(ShaderState::Failed) => Some(false),
            Some(ShaderState::Queued) => None,
            None => None,
        }
    }

    /// Number of shapes that are compiled and can be dispatched.
    pub fn compiled_count(&self) -> (r: usize)
        requires
            self.wf(),
        ensures
            r == dispatchable(self.states(), self.shapes()).len(),
    {
        self.compiled_pairs().len()
    }

    /// Number of shapes that wait for the compiler.
    pub fn queued_count(&self) -> (r: usize)
        requires
            self.wf(),
        ensures
            r == waiting_shapes(self.states(), self.shapes()).len(),
    {
        let mut count: usize = 0;
        let mut i: usize = 0;
        let n: usize = self.store.shaders.len();
        let ghost keys = self.shapes();
        let ghost m = self.states();
        proof {
            reveal(Seq::filter);
            assert(keys.take(0).len() == 0);
        }
        while i < n
            invariant
                self.wf(),
                keys == self.shapes(),
                m == self.states(),
                n == keys.len(),
                i <= n,
                count <= i,
                count == waiting_shapes(m, keys.take(i as int)).len(),
            decreases n - i,
        {
            let ghost pred = queued_in(m);
            let st = self.store.shaders.value_at(i);
            proof {
                lemma_filter_step(keys, i as int, pred);
            }
            if let ShaderState::Queued = st {
                count = count + 1;
            }
            i = i + 1;
        }
        proof {
            assert(keys.take(n as int) =~= keys);
        }
        count
    }

    /// The shapes that are compiled and can be dispatched, sorted.
    pub fn compiled_pairs(&self) -> (r: Vec<Shape>)
        requires
            self.wf(),
        ensures
            r@ == dispatchable(self.states(), self.shapes()),
    {
        let mut out: Vec<Shape> = Vec::new();
        let mut i: usize = 0;
        let n: usize = self.store.shaders.len();
        let ghost keys = self.shapes();
        let ghost m = self.states();
        proof {
            reveal(Seq::filter);
            assert(keys.take(0).len() == 0);
        }
        while i < n
            invariant
                self.wf(),
                keys == self.shapes(),
                m == self.states(),
                n == keys.len(),
                i <= n,
                out@ == dispatchable(m, keys.take(i as int)),
            decreases n - i,
        {
            let ghost pred = compiled_in(m);
            let st = self.store.shaders.value_at(i);
            proof {
                lemma_filter_step(keys, i as int, pred);
            }
            if let ShaderState::Compiled(_) = st {
                out.push(self.store.shaders.key_at(i));
            }
            i = i + 1;
        }
        proof {
            assert(keys.take(n as int) =~= keys);
        }
        out
    }
}

proof fn lemma_filter_step(keys: Seq<Shape>, i: int, pred: spec_fn(Shape) -> bool)
    requires
        0 <= i < keys.len(),
    ensures
        keys.take(i + 1).filter(pred) == if pred(keys[i]) {
            keys.take(i).filter(pred).push(keys[i])
        } else {
            keys.take(i).filter(pred)
        },
{
    reveal(Seq::filter);
    assert(keys.take(i + 1).drop_last() =~= keys.take(i));
    assert(keys.take(i + 1).last() == keys[i]);
}

/// What is said at start of a profile of so many shapes.
pub open spec fn warmup_text(total: nat, precompiled: nat) -> Seq<char> {
    if total > 0 {
        "REX JIT: "@ + crate::text::decimal(total) + " profile shape(s): "@ + crate::text::decimal(
            precompiled,
        ) + " already precompiled, "@ + crate::text::decimal((total - precompiled) as nat)
            + " queued for Cranelift"@
    } else {
        "REX JIT: started (no profile — shaders will compile on first use)"@
    }
}

/// What is said at start: the size of the profile, and how much of it the
/// precompiled table serves.
pub fn warmup_message(total: usize, precompiled: usize) -> (r: String)
    requires
        precompiled <= total,
    ensures
        r@ == warmup_text(total as nat, precompiled as nat),
{
    if total > 0 {
        let mut s = owned("REX JIT: ");
        push_decimal(&mut s, total as u64);
        s.append(" profile shape(s): ");
        push_decimal(&mut s, precompiled as u64);
        s.append(" already precompiled, ");
        push_decimal(&mut s, (total - precompiled) as u64);
        s.append(" queued for Cranelift");
        s
    } else {
        owned("REX JIT: started (no profile — shaders will compile on first use)")
    }
}

// ---------------------------------------------------------------------------
// Laws
// ---------------------------------------------------------------------------

/// Turning a compiled shader off and on again gives it back as it was, and a
/// shape that has no shader is not changed by either.
pub proof fn law_enable_undoes_disable(st: ShaderState)
    ensures
        !(st is Disabled) ==> st.turned_off().turned_on() == st,
        !(st is Compiled) ==> st.turned_on().turned_off() == st,
        st is Queued || st is Failed ==> st.turned_off() == st && st.turned_on() == st,
        !(st.turned_off() is Compiled),
{
}

/// The listing is sorted and holds every known shape once.
pub proof fn law_listings_are_sorted_and_complete(jit: RexJit)
    requires
        jit.wf(),
    ensures
        crate::shape_map::ascending(jit.shapes()),
        jit.shapes().no_duplicates(),
        jit.shapes().to_set() == jit.states().dom(),
        jit.shapes().len() == jit.states().dom().len(),
        forall|k: Shape|
            dispatchable(jit.states(), jit.shapes()).contains(k) <==> (
            #[trigger] jit.states().contains_key(k) && jit.states()[k] is Compiled),
        forall|k: Shape|
            waiting_shapes(jit.states(), jit.shapes()).contains(k) <==> (
            #[trigger] jit.states().contains_key(k) && jit.states()[k] is Queued),
{
    jit.store.shaders.lemma_sorted_keys();
    let keys = jit.shapes();
    let m = jit.states();
    assert forall|k: Shape| dispatchable(m, keys).contains(k) <==> (#[trigger] m.contains_key(k)
        && m[k] is Compiled) by {
        assert(keys.to_set().contains(k) == m.contains_key(k));
        lemma_filter_contains(keys, compiled_in(m), k);
    }
    assert forall|k: Shape| waiting_shapes(m, keys).contains(k) <==> (#[trigger] m.contains_key(k)
        && m[k] is Queued) by {
        assert(keys.to_set().contains(k) == m.contains_key(k));
        lemma_filter_contains(keys, queued_in(m), k);
    }
}

proof fn lemma_filter_contains(keys: Seq<Shape>, pred: spec_fn(Shape) -> bool, k: Shape)
    ensures
        keys.filter(pred).contains(k) == (keys.contains(k) && pred(k)),
    decreases keys.len(),
{
    reveal(Seq::filter);
    if keys.len() > 0 {
        let front = keys.drop_last();
        let last = keys.last();
        lemma_filter_contains(front, pred, k);
        assert(keys.filter(pred) =~= if pred(last) {
            front.filter(pred).push(last)
        } else {
            front.filter(pred)
        });
        assert(keys =~= front.push(last));
        assert(keys.contains(k) == (front.contains(k) || k == last)) by {
            if front.contains(k) {
                assert(keys[front.index_of(k)] == k);
            }
            if k == last {
                assert(keys[keys.len() - 1] == k);
            }
        }
        let f = front.filter(pred);
        assert(f.push(last).contains(k) == (f.contains(k) || k == last)) by {
            if f.contains(k) {
                assert(f.push(last)[f.index_of(k)] == k);
            }
            if k == last {
                assert(f.push(last)[f.len() as int] == k);
            }
        }
    }
}

/// What the states of a shape are called, and what each has: only a compiled shader can be
/// turned off and only one that is off can be turned on, both keep the code and its size, and a
/// shape without code has none.
pub proof fn law_states_of_a_shape(s: CompiledShader)
    ensures
        ShaderState::Compiled(s).turned_off() == ShaderState::Disabled(s),
        ShaderState::Disabled(s).turned_on() == ShaderState::Compiled(s),
        ShaderState::Disabled(s).turned_off() == ShaderState::Disabled(s),
        ShaderState::Compiled(s).turned_on() == ShaderState::Compiled(s),
        ShaderState::Compiled(s).size() == s.code_bytes,
        ShaderState::Disabled(s).size() == s.code_bytes,
        ShaderState::Queued.size() == 0 && ShaderState::Failed.size() == 0,
        ShaderState::Compiled(s).name() == "compiled"@,
        ShaderState::Disabled(s).name() == "disabled"@,
        ShaderState::Queued.name() == "queued"@,
        ShaderState::Failed.name() == "failed"@,
{
}

/// A request to compile asks for its shape, register by register, and a stop for none; a line
/// of the listing is that of its shape, register by register, with its state and its size.
pub proof fn law_requests_and_lines(
    dm0: u32,
    dm1: u32,
    cm: u32,
    info: ShaderInfo,
    k: Shape,
    st: ShaderState,
)
    ensures
        asked(CompileRequest::Compile(dm0, dm1, cm)) == Some((dm0, dm1, cm)),
        asked(CompileRequest::Shutdown) is None,
        describes(info, k, st) <==> info.dm0 == k.0 && info.dm1 == k.1 && info.cm == k.2
            && info.status@ == st.name() && info.code_bytes == st.size(),
{
}

/// A shape that waits for the compiler is in exactly one place: in the queue, at the compiler,
/// or with a sender that waits for room. No other shape is in any of them.
pub proof fn law_a_queued_shape_is_in_one_place(jit: RexJit, k: Shape)
    requires
        jit.wf(),
    ensures
        jit.states().contains_key(k) && jit.states()[k] == ShaderState::Queued <==> {
            ||| asks_for(jit.queue(), k)
            ||| jit.in_flight() == Some(k)
            ||| jit.held_by_sender(k)
        },
        !(asks_for(jit.queue(), k) && jit.in_flight() == Some(k)),
        !(asks_for(jit.queue(), k) && jit.held_by_sender(k)),
        !(jit.in_flight() == Some(k) && jit.held_by_sender(k)),
{
    jit.law_requests_belong_to_queued_shapes();
}

/// What can be dispatched is listed in the order of the shapes, each once.
pub proof fn law_dispatchable_shapes_are_sorted(jit: RexJit)
    requires
        jit.wf(),
    ensures
        crate::shape_map::ascending(dispatchable(jit.states(), jit.shapes())),
        dispatchable(jit.states(), jit.shapes()).no_duplicates(),
        waiting_shapes(jit.states(), jit.shapes()).no_duplicates(),
{
    law_listings_are_sorted_and_complete(jit);
    let keys = jit.shapes();
    lemma_filter_ascends(keys, compiled_in(jit.states()));
    lemma_filter_ascends(keys, queued_in(jit.states()));
    let a = dispatchable(jit.states(), keys);
    let b = waiting_shapes(jit.states(), keys);
    lemma_ascending_once(a);
    lemma_ascending_once(b);
}

proof fn lemma_ascending_once(s: Seq<Shape>)
    requires
        crate::shape_map::ascending(s),
    ensures
        s.no_duplicates(),
{
    assert forall|i: int, j: int| 0 <= i < s.len() && 0 <= j < s.len() && i != j implies s[i]
        != s[j] by {
        if i < j {
            assert(crate::shape_map::rank(s[i]) < crate::shape_map::rank(s[j]));
        } else {
            assert(crate::shape_map::rank(s[j]) < crate::shape_map::rank(s[i]));
        }
    }
}

proof fn lemma_filter_ascends(keys: Seq<Shape>, pred: spec_fn(Shape) -> bool)
    requires
        crate::shape_map::ascending(keys),
    ensures
        crate::shape_map::ascending(keys.filter(pred)),
    decreases keys.len(),
{
    reveal(Seq::filter);
    if keys.len() > 0 {
        let front = keys.drop_last();
        let last = keys.last();
        assert(crate::shape_map::ascending(front)) by {
            assert forall|i: int, j: int| 0 <= i < j < front.len() implies crate::shape_map::rank(
                #[trigger] front[i],
            ) < crate::shape_map::rank(#[trigger] front[j]) by {
                assert(keys[i] == front[i] && keys[j] == front[j]);
            }
        }
        lemma_filter_ascends(front, pred);
        let f = front.filter(pred);
        assert forall|i: int| 0 <= i < f.len() implies crate::shape_map::rank(#[trigger] f[i])
            < crate::shape_map::rank(last) by {
            lemma_filter_contains(front, pred, f[i]);
            let j = front.index_of(f[i]);
            assert(front.contains(f[i]));
            assert(keys[j] == f[i]);
        }
    }
}

/// What is said of a profile counts every shape of it as precompiled or as queued.
pub proof fn law_the_profile_adds_up(total: nat, precompiled: nat)
    requires
        0 < total,
        precompiled <= total,
    ensures
        crate::text::begins_with(
            warmup_text(total, precompiled),
            "REX JIT: "@ + crate::text::decimal(total),
        ),
        crate::text::has_substring(
            warmup_text(total, precompiled),
            crate::text::decimal(precompiled) + " already precompiled, "@ + crate::text::decimal(
                (total - precompiled) as nat,
            ) + " queued for Cranelift"@,
        ),
{
    let front = "REX JIT: "@ + crate::text::decimal(total);
    let middle = " profile shape(s): "@;
    let back = crate::text::decimal(precompiled) + " already precompiled, "@ + crate::text::decimal(
        (total - precompiled) as nat,
    ) + " queued for Cranelift"@;
    let none = Seq::<char>::empty();
    assert(warmup_text(total, precompiled) =~= front + (middle + back));
    assert(warmup_text(total, precompiled) =~= (front + middle) + back + none);
    crate::text::law_substrings(front, back, middle + back);
    crate::text::law_substrings(front + middle, back, none);
}

/// A shape is asked for once: asking again changes nothing. A shape that is known is not asked
/// for, nor is any while there is no room, and then a later draw can ask. What waits in the queue
/// stays where it is, and no other shape is touched.
pub proof fn law_a_shape_is_asked_for_once(
    m: Map<Shape, ShaderState>,
    q: Seq<CompileRequest>,
    fits: bool,
    again: bool,
    k: Shape,
    other: Shape,
)
    requires
        other != k,
    ensures
        ({
            let (m1, q1) = requested(m, q, fits, k);
            &&& fits ==> requested(m1, q1, again, k) == (m1, q1)
            &&& !fits || m.contains_key(k) ==> (m1, q1) == (m, q)
            &&& fits && !m.contains_key(k) ==> {
                &&& m1.contains_key(k) && m1[k] == ShaderState::Queued
                &&& q1.len() == q.len() + 1 && asked(q1.last()) == Some(k)
            }
            &&& q1.take(q.len() as int) == q
            &&& m1.contains_key(other) == m.contains_key(other)
            &&& m.contains_key(other) ==> m1[other] == m[other]
        }),
{
    let (m1, q1) = requested(m, q, fits, k);
    assert(q1.take(q.len() as int) =~= q);
}

/// Requests are taken in the order in which they came: one that comes later changes nothing
/// for those before it, and is taken when they are gone.
pub proof fn law_requests_are_taken_in_order(q: Seq<CompileRequest>, r: CompileRequest)
    ensures
        q.len() > 0 ==> taken(q.push(r)) == (taken(q).0, taken(q).1.push(r)),
        taken(Seq::<CompileRequest>::empty().push(r)) == (
            Some(r),
            Seq::<CompileRequest>::empty(),
        ),
        taken(Seq::<CompileRequest>::empty()) == (
            None::<CompileRequest>,
            Seq::<CompileRequest>::empty(),
        ),
{
    if q.len() > 0 {
        assert(q.push(r).drop_first() =~= q.drop_first().push(r));
    }
    assert(Seq::<CompileRequest>::empty().push(r).drop_first() =~= Seq::<CompileRequest>::empty());
}

/// What the compiler makes of a shape is what is dispatched from then on: its entry if it made
/// one, and nothing, for good, if it declined. No other shape is touched, and a shape that was
/// turned off is not dispatched until it is turned on again.
pub proof fn law_what_is_dispatched(
    m: Map<Shape, ShaderState>,
    k: Shape,
    other: Shape,
    entry: usize,
    code_bytes: u32,
)
    requires
        other != k,
    ensures
        dispatched(finished(m, Some(k), Some((entry, code_bytes))), k) == Some(entry),
        settled(finished(m, Some(k), Some((entry, code_bytes))), k) == Some(true),
        dispatched(finished(m, Some(k), None), k) is None,
        settled(finished(m, Some(k), None), k) == Some(false),
        dispatched(finished(m, Some(k), Some((entry, code_bytes))), other) == dispatched(m, other),
        settled(finished(m, Some(k), None), other) == settled(m, other),
        finished(m, None, Some((entry, code_bytes))) == m,
        m.contains_key(k) ==> {
            let off = m.insert(k, m[k].turned_off());
            let on = off.insert(k, off[k].turned_on());
            &&& dispatched(off, k) is None
            &&& settled(off, k) == settled(m, k)
            &&& dispatched(m, k) is Some ==> dispatched(on, k) == dispatched(m, k)
        },
        !m.contains_key(k) ==> dispatched(m, k) is None && settled(m, k) is None,
{
}

/// A request that can wait is sent exactly if its shape is new, the compiler takes requests and
/// there is room; it waits exactly for room, and for nothing where the compiler is gone.
pub proof fn law_what_becomes_of_a_request(known: bool, open: bool, room: bool)
    ensures
        send_state(known, open, room) == SendState::Sent <==> !known && open && room,
        send_state(known, open, room) == SendState::Waiting <==> !known && open && !room,
        send_state(known, open, room) == SendState::Closed <==> !known && !open,
        send_state(known, open, room) == SendState::Known <==> known,
{
}

} // verus!
