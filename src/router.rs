//! The deferred-initialization router: it buffers host events until the
//! application arrives, then replays them and forwards everything after.
use vstd::prelude::*;

verus! {

/// A user event as delivered through the host's event queue: either the
/// freshly constructed application, or an ordinary event for it.
pub enum ProxyEvent<A, U> {
    Init(A),
    Event(U),
}

/// What the router asks its host to carry out, in order.
pub enum Effect<P, W, U> {
    /// Start constructing the application; `P` is the handle through which
    /// the finished application is sent back.
    Construct(P),
    /// Deliver the activation signal to the application.
    Resumed,
    /// Deliver a window event to the application.
    Window(W),
    /// Deliver a user event to the application.
    User(U),
}

/// The router itself: `P` is the handle that reports the finished
/// application, `A` the application, `W` a window event, `U` a user event.
pub enum WinitProxy<P, A, W, U> {
    Uninit(P),
    Waiting { window_events: Vec<W>, user_events: Vec<U> },
    Init(A),
}

/// The router's state with its buffers seen as sequences.
pub enum RouterState<P, A, W, U> {
    Uninit(P),
    Waiting(Seq<W>, Seq<U>),
    Init(A),
}

/// A signal from the host, as far as it concerns the router.
pub enum Signal<A, W, U> {
    Resumed,
    Window(W),
    User(ProxyEvent<A, U>),
}

impl<P, A, W, U> View for WinitProxy<P, A, W, U> {
    type V = RouterState<P, A, W, U>;

    open spec fn view(&self) -> RouterState<P, A, W, U> {
        match self {
            WinitProxy::Uninit(p) => RouterState::Uninit(*p),
            WinitProxy::Waiting { window_events, user_events } => RouterState::Waiting(
                window_events@,
                user_events@,
            ),
            WinitProxy::Init(a) => RouterState::Init(*a),
        }
    }
}

/// The effects that replay buffered events: window events first, then user
/// events, each in arrival order.
pub open spec fn replay<P, W, U>(ws: Seq<W>, us: Seq<U>) -> Seq<Effect<P, W, U>> {
    ws.map_values(|w: W| Effect::Window(w)) + us.map_values(|u: U| Effect::User(u))
}

/// The state after one signal.
pub open spec fn next_state<P, A, W, U>(s: RouterState<P, A, W, U>, sig: Signal<A, W, U>) -> RouterState<P, A, W, U> {
    match (s, sig) {
        (RouterState::Uninit(_), Signal::Resumed) => RouterState::Waiting(seq![], seq![]),
        (RouterState::Waiting(ws, us), Signal::Window(w)) => RouterState::Waiting(ws.push(w), us),
        (RouterState::Waiting(ws, us), Signal::User(ProxyEvent::Event(u))) => RouterState::Waiting(ws, us.push(u)),
        (RouterState::Waiting(_, _), Signal::User(ProxyEvent::Init(a))) => RouterState::Init(a),
        _ => s,
    }
}

/// The effects that one signal asks for.
pub open spec fn effects<P, A, W, U>(s: RouterState<P, A, W, U>, sig: Signal<A, W, U>) -> Seq<Effect<P, W, U>> {
    match (s, sig) {
        (RouterState::Uninit(p), Signal::Resumed) => seq![Effect::Construct(p)],
        (RouterState::Init(_), Signal::Resumed) => seq![Effect::Resumed],
        (RouterState::Init(_), Signal::Window(w)) => seq![Effect::Window(w)],
        (RouterState::Init(_), Signal::User(ProxyEvent::Event(u))) => seq![Effect::User(u)],
        (RouterState::Waiting(ws, us), Signal::User(ProxyEvent::Init(_))) => seq![Effect::Resumed] + replay(ws, us),
        _ => seq![],
    }
}


/// The state after a sequence of signals, applied in order.
pub open spec fn run<P, A, W, U>(s: RouterState<P, A, W, U>, sigs: Seq<Signal<A, W, U>>) -> RouterState<P, A, W, U>
    decreases sigs.len(),
{
    if sigs.len() == 0 {
        s
    } else {
        next_state(run(s, sigs.drop_last()), sigs.last())
    }
}

/// Every effect that a sequence of signals asks for, in order.
pub open spec fn run_effects<P, A, W, U>(s: RouterState<P, A, W, U>, sigs: Seq<Signal<A, W, U>>) -> Seq<Effect<P, W, U>>
    decreases sigs.len(),
{
    if sigs.len() == 0 {
        seq![]
    } else {
        run_effects(s, sigs.drop_last()) + effects(run(s, sigs.drop_last()), sigs.last())
    }
}

/// Whether the signal carries the finished application.
pub open spec fn is_arrival<A, W, U>(sig: Signal<A, W, U>) -> bool {
    sig matches Signal::User(ProxyEvent::Init(_))
}

/// The window events among the signals, in order.
pub open spec fn window_events_of<A, W, U>(sigs: Seq<Signal<A, W, U>>) -> Seq<W>
    decreases sigs.len(),
{
    if sigs.len() == 0 {
        seq![]
    } else {
        window_events_of(sigs.drop_last()) + match sigs.last() {
            Signal::Window(w) => seq![w],
            _ => seq![],
        }
    }
}

/// The ordinary user events among the signals, in order.
pub open spec fn user_events_of<A, W, U>(sigs: Seq<Signal<A, W, U>>) -> Seq<U>
    decreases sigs.len(),
{
    if sigs.len() == 0 {
        seq![]
    } else {
        user_events_of(sigs.drop_last()) + match sigs.last() {
            Signal::User(ProxyEvent::Event(u)) => seq![u],
            _ => seq![],
        }
    }
}

/// What an installed application receives for one signal.
pub open spec fn forwarded<P, A, W, U>(sig: Signal<A, W, U>) -> Seq<Effect<P, W, U>> {
    match sig {
        Signal::Resumed => seq![Effect::Resumed],
        Signal::Window(w) => seq![Effect::Window(w)],
        Signal::User(ProxyEvent::Event(u)) => seq![Effect::User(u)],
        Signal::User(ProxyEvent::Init(_)) => seq![],
    }
}

/// What an installed application receives for a sequence of signals.
pub open spec fn forwarded_all<P, A, W, U>(sigs: Seq<Signal<A, W, U>>) -> Seq<Effect<P, W, U>>
    decreases sigs.len(),
{
    if sigs.len() == 0 {
        seq![]
    } else {
        forwarded_all(sigs.drop_last()) + forwarded(sigs.last())
    }
}

/// How many times a sequence of signals moves the router into `Init`.
pub open spec fn installs<P, A, W, U>(s: RouterState<P, A, W, U>, sigs: Seq<Signal<A, W, U>>) -> nat
    decreases sigs.len(),
{
    if sigs.len() == 0 {
        0
    } else {
        let before = run(s, sigs.drop_last());
        let step: nat = if !(before is Init) && next_state(before, sigs.last()) is Init { 1 } else { 0 };
        installs(s, sigs.drop_last()) + step
    }
}

/// How many construction requests a sequence of effects holds.
pub open spec fn constructions<P, W, U>(es: Seq<Effect<P, W, U>>) -> nat
    decreases es.len(),
{
    if es.len() == 0 {
        0
    } else {
        constructions(es.drop_last()) + if es.last() is Construct { 1nat } else { 0nat }
    }
}

proof fn lemma_run_append<P, A, W, U>(s: RouterState<P, A, W, U>, x: Seq<Signal<A, W, U>>, y: Seq<Signal<A, W, U>>)
    ensures
        run(s, x + y) == run(run(s, x), y),
        run_effects(s, x + y) == run_effects(s, x) + run_effects(run(s, x), y),
    decreases y.len(),
{
    if y.len() == 0 {
        assert(x + y =~= x);
    } else {
        assert((x + y).drop_last() =~= x + y.drop_last());
        lemma_run_append(s, x, y.drop_last());
    }
}

proof fn lemma_run_single<P, A, W, U>(s: RouterState<P, A, W, U>, sig: Signal<A, W, U>)
    ensures
        run(s, seq![sig]) == next_state(s, sig),
        run_effects(s, seq![sig]) == effects(s, sig),
{
    let one = seq![sig];
    assert(one.drop_last() =~= Seq::<Signal<A, W, U>>::empty());
    assert(one.last() == sig);
    assert(run(s, one.drop_last()) == s);
    assert(run_effects(s, one.drop_last()) == Seq::<Effect<P, W, U>>::empty());
    assert(Seq::<Effect<P, W, U>>::empty() + effects(s, sig) =~= effects(s, sig));
}

proof fn lemma_constructions_append<P, W, U>(a: Seq<Effect<P, W, U>>, b: Seq<Effect<P, W, U>>)
    ensures
        constructions(a + b) == constructions(a) + constructions(b),
    decreases b.len(),
{
    if b.len() == 0 {
        assert(a + b =~= a);
    } else {
        assert((a + b).drop_last() =~= a + b.drop_last());
        lemma_constructions_append(a, b.drop_last());
    }
}

proof fn lemma_no_constructions<P, W, U>(es: Seq<Effect<P, W, U>>)
    requires
        forall|i: int| 0 <= i < es.len() ==> !(#[trigger] es[i] is Construct),
    ensures
        constructions(es) == 0,
    decreases es.len(),
{
    if es.len() > 0 {
        lemma_no_constructions(es.drop_last());
    }
}

proof fn lemma_waiting_run<P, A, W, U>(ws: Seq<W>, us: Seq<U>, sigs: Seq<Signal<A, W, U>>)
    requires
        forall|i: int| 0 <= i < sigs.len() ==> !is_arrival(#[trigger] sigs[i]),
    ensures
        run(RouterState::<P, A, W, U>::Waiting(ws, us), sigs)
            == RouterState::<P, A, W, U>::Waiting(ws + window_events_of(sigs), us + user_events_of(sigs)),
        run_effects(RouterState::<P, A, W, U>::Waiting(ws, us), sigs) == Seq::<Effect<P, W, U>>::empty(),
    decreases sigs.len(),
{
    if sigs.len() == 0 {
        assert(ws + window_events_of(sigs) =~= ws);
        assert(us + user_events_of(sigs) =~= us);
    } else {
        lemma_waiting_run::<P, A, W, U>(ws, us, sigs.drop_last());
        assert(!is_arrival(sigs[sigs.len() - 1]));
        let wd = window_events_of(sigs.drop_last());
        let ud = user_events_of(sigs.drop_last());
        match sigs.last() {
            Signal::Window(w) => {
                assert((ws + wd).push(w) =~= ws + window_events_of(sigs));
                assert(us + ud =~= us + user_events_of(sigs));
            },
            Signal::User(ProxyEvent::Event(u)) => {
                assert(ws + wd =~= ws + window_events_of(sigs));
                assert((us + ud).push(u) =~= us + user_events_of(sigs));
            },
            _ => {
                assert(ws + wd =~= ws + window_events_of(sigs));
                assert(us + ud =~= us + user_events_of(sigs));
            },
        }
        assert(run_effects(RouterState::<P, A, W, U>::Waiting(ws, us), sigs) =~= Seq::<Effect<P, W, U>>::empty());
    }
}

/// Once the application is installed it stays installed, and every later
/// signal reaches it directly, in order, with nothing buffered.
pub proof fn lemma_installed_forwards<P, A, W, U>(a: A, sigs: Seq<Signal<A, W, U>>)
    ensures
        run(RouterState::<P, A, W, U>::Init(a), sigs) == RouterState::<P, A, W, U>::Init(a),
        run_effects(RouterState::<P, A, W, U>::Init(a), sigs) == forwarded_all::<P, A, W, U>(sigs),
    decreases sigs.len(),
{
    if sigs.len() > 0 {
        lemma_installed_forwards::<P, A, W, U>(a, sigs.drop_last());
        assert(effects(RouterState::<P, A, W, U>::Init(a), sigs.last()) =~= forwarded::<P, A, W, U>(sigs.last()));
    }
}

/// Every window and user event that arrives while the application is being
/// constructed reaches it exactly once after it arrives: window events
/// first, then user events, each kind in arrival order, right after the
/// activation signal; and nothing reaches it earlier.
pub proof fn lemma_replay_exact<P, A, W, U>(p: P, sigs: Seq<Signal<A, W, U>>, a: A)
    requires
        forall|i: int| 0 <= i < sigs.len() ==> !is_arrival(#[trigger] sigs[i]),
    ensures
        ({
            let all = seq![Signal::Resumed] + sigs + seq![Signal::User(ProxyEvent::Init(a))];
            &&& run(RouterState::<P, A, W, U>::Uninit(p), all) == RouterState::<P, A, W, U>::Init(a)
            &&& run_effects(RouterState::<P, A, W, U>::Uninit(p), all)
                == seq![Effect::Construct(p), Effect::Resumed]
                    + replay::<P, W, U>(window_events_of(sigs), user_events_of(sigs))
        }),
{
    let s0 = RouterState::<P, A, W, U>::Uninit(p);
    let first = seq![Signal::<A, W, U>::Resumed];
    let last = seq![Signal::User(ProxyEvent::Init(a))];
    let empty_w = Seq::<W>::empty();
    let empty_u = Seq::<U>::empty();
    lemma_run_single(s0, Signal::<A, W, U>::Resumed);
    lemma_waiting_run::<P, A, W, U>(empty_w, empty_u, sigs);
    assert(empty_w + window_events_of(sigs) =~= window_events_of(sigs));
    assert(empty_u + user_events_of(sigs) =~= user_events_of(sigs));
    lemma_run_append(s0, first, sigs);
    lemma_run_append(s0, first + sigs, last);
    let mid = RouterState::<P, A, W, U>::Waiting(window_events_of(sigs), user_events_of(sigs));
    lemma_run_single(mid, Signal::User(ProxyEvent::Init(a)));
    assert(run_effects(mid, last) =~= seq![Effect::<P, W, U>::Resumed] + replay::<P, W, U>(window_events_of(sigs), user_events_of(sigs)));
    assert(run_effects(s0, first + sigs + last) =~= seq![Effect::Construct(p), Effect::Resumed]
        + replay::<P, W, U>(window_events_of(sigs), user_events_of(sigs)));
}

proof fn lemma_once_bounds<P, A, W, U>(s: RouterState<P, A, W, U>, sigs: Seq<Signal<A, W, U>>)
    ensures
        installs(s, sigs) <= 1,
        installs(s, sigs) == 1 ==> run(s, sigs) is Init,
        s is Init ==> run(s, sigs) is Init,
        constructions(run_effects(s, sigs)) <= 1,
        constructions(run_effects(s, sigs)) == 1 ==> !(run(s, sigs) is Uninit),
        !(s is Uninit) ==> !(run(s, sigs) is Uninit) && constructions(run_effects(s, sigs)) == 0,
    decreases sigs.len(),
{
    if sigs.len() > 0 {
        let before = run(s, sigs.drop_last());
        let sig = sigs.last();
        lemma_once_bounds(s, sigs.drop_last());
        lemma_constructions_append(run_effects(s, sigs.drop_last()), effects(before, sig));
        let es = effects(before, sig);
        if before is Uninit && sig is Resumed {
            assert(es.len() == 1);
            assert(es.last() is Construct);
            assert(es.drop_last() =~= Seq::<Effect<P, W, U>>::empty());
            assert(constructions(es.drop_last()) == 0);
            assert(constructions(es) == 1);
        } else {
            match (before, sig) {
                (RouterState::Waiting(ws, us), Signal::User(ProxyEvent::Init(_))) => {
                    let rest = replay::<P, W, U>(ws, us);
                    assert(forall|i: int| 0 <= i < rest.len() ==> !(#[trigger] rest[i] is Construct));
                    lemma_no_constructions(rest);
                    let head = seq![Effect::<P, W, U>::Resumed];
                    lemma_constructions_append(head, rest);
                    assert(head.drop_last() =~= Seq::<Effect<P, W, U>>::empty());
                    assert(constructions(head.drop_last()) == 0);
                    assert(!(head.last() is Construct));
                    assert(constructions(head) == 0);
                    assert(es == head + rest);
                },
                _ => {
                    assert(es.len() <= 1);
                    assert(es.len() == 1 ==> !(es[0] is Construct));
                    assert(forall|i: int| 0 <= i < es.len() ==> !(#[trigger] es[i] is Construct));
                    lemma_no_constructions(es);
                },
            }
            assert(constructions(es) == 0);
        }
    }
}

/// However many activation signals the host sends, and whatever else
/// arrives, the application is installed at most once and construction is
/// started at most once.
pub proof fn lemma_init_at_most_once<P, A, W, U>(s: RouterState<P, A, W, U>, sigs: Seq<Signal<A, W, U>>)
    ensures
        installs(s, sigs) <= 1,
        constructions(run_effects(s, sigs)) <= 1,
{
    lemma_once_bounds(s, sigs);
}

/// Moves every buffered window event, in order, onto the end of `out`.
fn push_windows<P, W, U>(out: &mut Vec<Effect<P, W, U>>, ws: Vec<W>)
    ensures
        final(out)@ == old(out)@ + ws@.map_values(|w: W| Effect::<P, W, U>::Window(w)),
{
    let total: usize = ws.len();
    let mut rest = ws;
    let ghost all = ws@;
    let ghost start = out@;
    let mut k: usize = 0;
    while rest.len() > 0
        invariant
            k + rest@.len() == all.len(),
            all.len() == total,
            rest@ == all.subrange(k as int, all.len() as int),
            out@ == start + all.subrange(0, k as int).map_values(|w: W| Effect::<P, W, U>::Window(w)),
        decreases rest@.len(),
    {
        let w = rest.remove(0);
        out.push(Effect::Window(w));
        proof {
            assert(all.subrange(0, k + 1).map_values(|w: W| Effect::<P, W, U>::Window(w)) =~= all.subrange(0, k as int).map_values(|w: W| Effect::<P, W, U>::Window(w)).push(Effect::Window(w)));
        }
        k = k + 1;
    }
    proof {
        assert(all.subrange(0, k as int) =~= all);
    }
}

/// Moves every buffered user event, in order, onto the end of `out`.
fn push_users<P, W, U>(out: &mut Vec<Effect<P, W, U>>, us: Vec<U>)
    ensures
        final(out)@ == old(out)@ + us@.map_values(|u: U| Effect::<P, W, U>::User(u)),
{
    let total: usize = us.len();
    let mut rest = us;
    let ghost all = us@;
    let ghost start = out@;
    let mut k: usize = 0;
    while rest.len() > 0
        invariant
            k + rest@.len() == all.len(),
            all.len() == total,
            rest@ == all.subrange(k as int, all.len() as int),
            out@ == start + all.subrange(0, k as int).map_values(|u: U| Effect::<P, W, U>::User(u)),
        decreases rest@.len(),
    {
        let u = rest.remove(0);
        out.push(Effect::User(u));
        proof {
            assert(all.subrange(0, k + 1).map_values(|u: U| Effect::<P, W, U>::User(u)) =~= all.subrange(0, k as int).map_values(|u: U| Effect::<P, W, U>::User(u)).push(Effect::User(u)));
        }
        k = k + 1;
    }
    proof {
        assert(all.subrange(0, k as int) =~= all);
    }
}

impl<P, A, W, U> WinitProxy<P, A, W, U> {
    /// The activation signal from the host.
    pub fn resumed(&mut self) -> (r: Vec<Effect<P, W, U>>)
        ensures
            final(self)@ == next_state(old(self)@, Signal::Resumed),
            r@ == effects(old(self)@, Signal::<A, W, U>::Resumed),
    {
        let mut r: Vec<Effect<P, W, U>> = Vec::new();
        if let WinitProxy::Uninit(_) = self {
            let mut prev = WinitProxy::Waiting { window_events: Vec::new(), user_events: Vec::new() };
            std::mem::swap(&mut prev, self);
            if let WinitProxy::Uninit(p) = prev {
                r.push(Effect::Construct(p));
            }
        } else if let WinitProxy::Init(_) = self {
            r.push(Effect::Resumed);
        }
        proof { assert(r@ =~= effects(old(self)@, Signal::<A, W, U>::Resumed)); }
        r
    }

    /// Any other notification from the host (suspend, exit, device events,
    /// memory pressure and the like): handed back for the application once
    /// it exists, dropped before that.
    pub fn lifecycle<N>(&self, notification: N) -> (r: Option<N>)
        ensures
            r is Some <==> self@ is Init,
            r is Some ==> r->0 == notification,
    {
        match self {
            WinitProxy::Init(_) => Some(notification),
            _ => None,
        }
    }

    /// A window event from the host: buffered while waiting, forwarded once
    /// the application exists, dropped before activation.
    pub fn window_event(&mut self, event: W) -> (r: Vec<Effect<P, W, U>>)
        ensures
            final(self)@ == next_state(old(self)@, Signal::<A, W, U>::Window(event)),
            r@ == effects(old(self)@, Signal::<A, W, U>::Window(event)),
    {
        let mut r: Vec<Effect<P, W, U>> = Vec::new();
        match self {
            WinitProxy::Waiting { window_events, .. } => {
                window_events.push(event);
            },
            WinitProxy::Init(_) => {
                r.push(Effect::Window(event));
            },
            WinitProxy::Uninit(_) => {},
        }
        proof { assert(r@ =~= effects(old(self)@, Signal::<A, W, U>::Window(event))); }
        r
    }

    /// A user event from the host. The application's arrival while waiting
    /// installs it and replays the buffer; an ordinary event is buffered
    /// while waiting and forwarded once the application exists. The
    /// application arriving at any other time is ignored.
    pub fn user_event(&mut self, event: ProxyEvent<A, U>) -> (r: Vec<Effect<P, W, U>>)
        ensures
            final(self)@ == next_state(old(self)@, Signal::User(event)),
            r@ == effects(old(self)@, Signal::User(event)),
    {
        let ghost sig = Signal::<A, W, U>::User(event);
        let mut r: Vec<Effect<P, W, U>> = Vec::new();
        match event {
            ProxyEvent::Init(app) => {
                if let WinitProxy::Waiting { .. } = self {
                    let mut prev = WinitProxy::Init(app);
                    std::mem::swap(&mut prev, self);
                    if let WinitProxy::Waiting { window_events, user_events } = prev {
                        r.push(Effect::Resumed);
                        push_windows(&mut r, window_events);
                        push_users(&mut r, user_events);
                        proof { assert(r@ =~= effects(old(self)@, sig)); }
                    }
                }
            },
            ProxyEvent::Event(e) => {
                match self {
                    WinitProxy::Waiting { user_events, .. } => {
                        user_events.push(e);
                    },
                    WinitProxy::Init(_) => {
                        r.push(Effect::User(e));
                    },
                    WinitProxy::Uninit(_) => {},
                }
            },
        }
        proof { assert(r@ =~= effects(old(self)@, sig)); }
        r
    }
}

} // verus!
