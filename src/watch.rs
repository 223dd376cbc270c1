//! The asset watcher: the set of watched names, the commands that change it,
//! and which files a change notification asks to read.
use vstd::prelude::*;

use crate::Event;

verus! {

/// Whether a command begins or ends watching a name.
pub enum WatchAction {
    Start,
    Stop,
}

/// A request from the consumer to the watcher.
pub struct WatchCommand {
    pub name: String,
    pub action: WatchAction,
}

/// The kind of a filesystem change notification, as far as the watcher
/// cares: only a completed write is worth reading.
pub enum ChangeKind {
    WriteClosed,
    Other,
}

/// One input to the watcher, in the order it reaches the watcher's thread.
pub enum WatchInput {
    /// A command from the consumer.
    Command(WatchCommand),
    /// A change notification with the file name of each changed path
    /// (`None` where the path has no file name that is valid text).
    Changed(ChangeKind, Vec<Option<String>>),
}

/// The watcher's state: the names currently watched, each held once.
pub struct AssetWatcher {
    watched: Vec<String>,
}

/// The watched set after one input.
pub open spec fn watch_next(set: Set<Seq<char>>, input: WatchInput) -> Set<Seq<char>> {
    match input {
        WatchInput::Command(c) => match c.action {
            WatchAction::Start => set.insert(c.name@),
            WatchAction::Stop => set.remove(c.name@),
        },
        WatchInput::Changed(_, _) => set,
    }
}

/// The watched names among the file names of a notification, in order.
pub open spec fn watched_among(set: Set<Seq<char>>, names: Seq<Option<String>>) -> Seq<Seq<char>>
    decreases names.len(),
{
    if names.len() == 0 {
        seq![]
    } else {
        watched_among(set, names.drop_last()) + match names.last() {
            Some(n) => if set.contains(n@) { seq![n@] } else { seq![] },
            None => seq![],
        }
    }
}

/// The files that one input asks to read: the name just started (its
/// initial snapshot), or the watched names of a completed write.
pub open spec fn watch_reads(set: Set<Seq<char>>, input: WatchInput) -> Seq<Seq<char>> {
    match input {
        WatchInput::Command(c) => match c.action {
            WatchAction::Start => seq![c.name@],
            WatchAction::Stop => seq![],
        },
        WatchInput::Changed(kind, names) => match kind {
            ChangeKind::WriteClosed => watched_among(set, names@),
            ChangeKind::Other => seq![],
        },
    }
}

/// The watched set after a sequence of inputs.
pub open spec fn watch_run(set: Set<Seq<char>>, inputs: Seq<WatchInput>) -> Set<Seq<char>>
    decreases inputs.len(),
{
    if inputs.len() == 0 {
        set
    } else {
        watch_next(watch_run(set, inputs.drop_last()), inputs.last())
    }
}

/// Every read that a sequence of inputs asks for, in order.
pub open spec fn watch_run_reads(set: Set<Seq<char>>, inputs: Seq<WatchInput>) -> Seq<Seq<char>>
    decreases inputs.len(),
{
    if inputs.len() == 0 {
        seq![]
    } else {
        watch_run_reads(set, inputs.drop_last()) + watch_reads(watch_run(set, inputs.drop_last()), inputs.last())
    }
}

/// The events that a batch of reads yields: one for each read that
/// succeeded, in order; failed reads are dropped.
pub open spec fn emitted(reads: Seq<(String, Option<Vec<u8>>)>) -> Seq<(Seq<char>, Seq<u8>)>
    decreases reads.len(),
{
    if reads.len() == 0 {
        seq![]
    } else {
        emitted(reads.drop_last()) + match reads.last().1 {
            Some(bytes) => seq![(reads.last().0@, bytes@)],
            None => seq![],
        }
    }
}

/// Whether the input starts watching `name`.
pub open spec fn starts(input: WatchInput, name: Seq<char>) -> bool {
    match input {
        WatchInput::Command(c) => c.action is Start && c.name@ == name,
        _ => false,
    }
}

/// Starting to watch a name asks for exactly one read of it, its initial
/// snapshot; that read yields one event for the name when the file could be
/// read, and none when it could not.
pub proof fn lemma_start_snapshots(set: Set<Seq<char>>, cmd: WatchCommand, contents: Option<Vec<u8>>)
    requires
        cmd.action is Start,
    ensures
        watch_reads(set, WatchInput::Command(cmd)) == seq![cmd.name@],
        watch_next(set, WatchInput::Command(cmd)).contains(cmd.name@),
        emitted(seq![(cmd.name, contents)]) == match contents {
            Some(bytes) => seq![(cmd.name@, bytes@)],
            None => Seq::<(Seq<char>, Seq<u8>)>::empty(),
        },
{
    let one = seq![(cmd.name, contents)];
    assert(one.drop_last() =~= Seq::<(String, Option<Vec<u8>>)>::empty());
    assert(one.last() == (cmd.name, contents));
    assert(emitted(one.drop_last()) == Seq::<(Seq<char>, Seq<u8>)>::empty());
    assert(emitted(one) =~= match contents {
        Some(bytes) => seq![(cmd.name@, bytes@)],
        None => Seq::<(Seq<char>, Seq<u8>)>::empty(),
    });
}

proof fn lemma_watch_run_append(set: Set<Seq<char>>, x: Seq<WatchInput>, y: Seq<WatchInput>)
    ensures
        watch_run(set, x + y) == watch_run(watch_run(set, x), y),
        watch_run_reads(set, x + y) == watch_run_reads(set, x) + watch_run_reads(watch_run(set, x), y),
    decreases y.len(),
{
    if y.len() == 0 {
        assert(x + y =~= x);
    } else {
        assert((x + y).drop_last() =~= x + y.drop_last());
        lemma_watch_run_append(set, x, y.drop_last());
    }
}

proof fn lemma_watch_run_single(set: Set<Seq<char>>, input: WatchInput)
    ensures
        watch_run(set, seq![input]) == watch_next(set, input),
        watch_run_reads(set, seq![input]) == watch_reads(set, input),
{
    let one = seq![input];
    assert(one.drop_last() =~= Seq::<WatchInput>::empty());
    assert(one.last() == input);
    assert(watch_run(set, one.drop_last()) == set);
    assert(watch_run_reads(set, one.drop_last()) == Seq::<Seq<char>>::empty());
    assert(Seq::<Seq<char>>::empty() + watch_reads(set, input) =~= watch_reads(set, input));
}

proof fn lemma_watched_among_excludes(set: Set<Seq<char>>, names: Seq<Option<String>>, name: Seq<char>)
    requires
        !set.contains(name),
    ensures
        !watched_among(set, names).contains(name),
    decreases names.len(),
{
    if names.len() > 0 {
        lemma_watched_among_excludes(set, names.drop_last(), name);
        let prev = watched_among(set, names.drop_last());
        let tail: Seq<Seq<char>> = match names.last() {
            Some(n) => if set.contains(n@) { seq![n@] } else { seq![] },
            None => seq![],
        };
        assert(!tail.contains(name));
        assert forall|i: int| 0 <= i < (prev + tail).len() implies (prev + tail)[i] != name by {
            if i < prev.len() {
                assert((prev + tail)[i] == prev[i]);
            } else {
                assert((prev + tail)[i] == tail[i - prev.len()]);
            }
        }
    }
}

proof fn lemma_silent_run(set: Set<Seq<char>>, name: Seq<char>, inputs: Seq<WatchInput>)
    requires
        !set.contains(name),
        forall|i: int| 0 <= i < inputs.len() ==> !starts(#[trigger] inputs[i], name),
    ensures
        !watch_run(set, inputs).contains(name),
        !watch_run_reads(set, inputs).contains(name),
    decreases inputs.len(),
{
    if inputs.len() > 0 {
        lemma_silent_run(set, name, inputs.drop_last());
        let before = watch_run(set, inputs.drop_last());
        let input = inputs.last();
        assert(!starts(inputs[inputs.len() - 1], name));
        let prev = watch_run_reads(set, inputs.drop_last());
        let tail = watch_reads(before, input);
        match input {
            WatchInput::Changed(kind, names) => {
                lemma_watched_among_excludes(before, names@, name);
            },
            _ => {},
        }
        assert(!tail.contains(name));
        assert forall|i: int| 0 <= i < (prev + tail).len() implies (prev + tail)[i] != name by {
            if i < prev.len() {
                assert((prev + tail)[i] == prev[i]);
            } else {
                assert((prev + tail)[i] == tail[i - prev.len()]);
            }
        }
    }
}

/// Once a name is no longer watched, no later input asks to read it, and it
/// stays unwatched, until a command starts watching it again.
pub proof fn lemma_stop_silences(set: Set<Seq<char>>, stop: WatchCommand, inputs: Seq<WatchInput>)
    requires
        stop.action is Stop,
        forall|i: int| 0 <= i < inputs.len() ==> !starts(#[trigger] inputs[i], stop.name@),
    ensures
        !watch_run(set, seq![WatchInput::Command(stop)] + inputs).contains(stop.name@),
        !watch_run_reads(set, seq![WatchInput::Command(stop)] + inputs).contains(stop.name@),
{
    let first = seq![WatchInput::Command(stop)];
    lemma_watch_run_single(set, WatchInput::Command(stop));
    lemma_watch_run_append(set, first, inputs);
    let after = set.remove(stop.name@);
    lemma_silent_run(after, stop.name@, inputs);
    let rest = watch_run_reads(after, inputs);
    assert(watch_run_reads(set, first) =~= Seq::<Seq<char>>::empty());
    assert(Seq::<Seq<char>>::empty() + rest =~= rest);
}

/// Starting to watch a name twice in a row leaves the watcher exactly as
/// one start does: the name is registered once, so every later input, and
/// in particular every later write, is handled as after a single start.
pub proof fn lemma_start_idempotent(set: Set<Seq<char>>, cmd: WatchCommand, inputs: Seq<WatchInput>)
    requires
        cmd.action is Start,
    ensures
        watch_next(watch_next(set, WatchInput::Command(cmd)), WatchInput::Command(cmd))
            == watch_next(set, WatchInput::Command(cmd)),
        watch_run(set, seq![WatchInput::Command(cmd), WatchInput::Command(cmd)] + inputs)
            == watch_run(set, seq![WatchInput::Command(cmd)] + inputs),
{
    let c = WatchInput::Command(cmd);
    let once = watch_next(set, c);
    assert(watch_next(once, c) =~= once);
    let two = seq![c, c];
    assert(two == seq![c] + seq![c]);
    lemma_watch_run_single(set, c);
    lemma_watch_run_single(once, c);
    lemma_watch_run_append(set, seq![c], seq![c]);
    lemma_watch_run_append(set, two, inputs);
    lemma_watch_run_append(set, seq![c], inputs);
}

impl View for AssetWatcher {
    type V = Set<Seq<char>>;

    closed spec fn view(&self) -> Set<Seq<char>> {
        Set::new(|n: Seq<char>| exists|i: int| 0 <= i < self.watched@.len() && (#[trigger] self.watched@[i])@ == n)
    }
}

impl AssetWatcher {
    /// Each watched name is held once.
    pub closed spec fn wf(&self) -> bool {
        forall|i: int, j: int|
            0 <= i < j < self.watched@.len() ==> (#[trigger] self.watched@[i])@ != (#[trigger] self.watched@[j])@
    }

    /// A watcher that watches nothing.
    pub fn new() -> (r: Self)
        ensures
            r.wf(),
            r@ == Set::<Seq<char>>::empty(),
    {
        let r = AssetWatcher { watched: Vec::new() };
        assert(r@ =~= Set::<Seq<char>>::empty());
        r
    }

    /// Where `name` stands among the watched names.
    fn position(&self, name: &String) -> (r: Option<usize>)
        ensures
            match r {
                Some(i) => i < self.watched@.len() && self.watched@[i as int]@ == name@,
                None => !self@.contains(name@),
            },
    {
        let mut i: usize = 0;
        while i < self.watched.len()
            invariant
                i <= self.watched@.len(),
                forall|k: int| 0 <= k < i ==> (#[trigger] self.watched@[k])@ != name@,
            decreases self.watched@.len() - i,
        {
            if self.watched[i] == *name {
                return Some(i);
            }
            i = i + 1;
        }
        None
    }

    /// Adds `name` to the watched names.
    fn watch(&mut self, name: String)
        requires
            old(self).wf(),
        ensures
            final(self).wf(),
            final(self)@ == old(self)@.insert(name@),
    {
        if self.position(&name).is_none() {
            let ghost before = self.watched@;
            self.watched.push(name);
            proof {
                assert(forall|i: int| 0 <= i < before.len() ==> self.watched@[i] == before[i]);
                assert(!old(self)@.contains(name@));
                assert forall|i: int| 0 <= i < before.len() implies (#[trigger] before[i])@ != name@ by {
                    if before[i]@ == name@ {
                        assert(old(self)@.contains(name@));
                    }
                }
            }
            assert(self@ =~= old(self)@.insert(name@)) by {
                assert(self.watched@[before.len() as int]@ == name@);
            }
        } else {
            assert(self@ =~= old(self)@.insert(name@));
        }
    }

    /// Removes `name` from the watched names.
    fn unwatch(&mut self, name: &String)
        requires
            old(self).wf(),
        ensures
            final(self).wf(),
            final(self)@ == old(self)@.remove(name@),
    {
        match self.position(name) {
            Some(i) => {
                let ghost before = self.watched@;
                self.watched.remove(i);
                proof {
                    assert(forall|k: int| 0 <= k < i ==> self.watched@[k] == before[k]);
                    assert(forall|k: int| i <= k < self.watched@.len() ==> self.watched@[k] == before[k + 1]);
                    assert forall|n: Seq<char>| #[trigger] self@.contains(n) == old(self)@.remove(name@).contains(n) by {
                        if self@.contains(n) {
                            let k = choose|k: int| 0 <= k < self.watched@.len() && (#[trigger] self.watched@[k])@ == n;
                            if k < i {
                                assert(before[k]@ == n);
                            } else {
                                assert(before[k + 1]@ == n);
                            }
                        }
                        if old(self)@.remove(name@).contains(n) {
                            let k = choose|k: int| 0 <= k < before.len() && (#[trigger] before[k])@ == n;
                            assert(k != i);
                            if k < i {
                                assert(self.watched@[k]@ == n);
                            } else {
                                assert(self.watched@[k - 1]@ == n);
                            }
                        }
                    }
                }
                assert(self@ =~= old(self)@.remove(name@));
            },
            None => {
                assert(self@ =~= old(self)@.remove(name@));
            },
        }
    }

    /// Handles one input: applies a command to the watched names, and says
    /// which files to read now, the snapshot of a name just started or the
    /// watched names of a completed write.
    pub fn handle(&mut self, input: WatchInput) -> (reads: Vec<String>)
        requires
            old(self).wf(),
        ensures
            final(self).wf(),
            final(self)@ == watch_next(old(self)@, input),
            reads@.map_values(|n: String| n@) == watch_reads(old(self)@, input),
    {
        let ghost g = input;
        let mut reads: Vec<String> = Vec::new();
        match input {
            WatchInput::Command(cmd) => {
                match cmd.action {
                    WatchAction::Start => {
                        reads.push(cmd.name.clone());
                        self.watch(cmd.name);
                    },
                    WatchAction::Stop => {
                        self.unwatch(&cmd.name);
                    },
                }
            },
            WatchInput::Changed(kind, names) => {
                if let ChangeKind::WriteClosed = kind {
                    let mut i: usize = 0;
                    while i < names.len()
                        invariant
                            self.wf(),
                            self@ == old(self)@,
                            i <= names@.len(),
                            reads@.map_values(|n: String| n@) == watched_among(self@, names@.subrange(0, i as int)),
                        decreases names@.len() - i,
                    {
                        let ghost prev = reads@;
                        if let Some(n) = &names[i] {
                            if self.is_watching(n) {
                                reads.push(n.clone());
                            }
                        }
                        proof {
                            assert(names@.subrange(0, i + 1).drop_last() =~= names@.subrange(0, i as int));
                            assert(reads@.map_values(|n: String| n@) =~= watched_among(self@, names@.subrange(0, i + 1)));
                        }
                        i = i + 1;
                    }
                    proof {
                        assert(names@.subrange(0, i as int) =~= names@);
                    }
                }
            },
        }
        proof {
            assert(reads@.map_values(|n: String| n@) =~= watch_reads(old(self)@, g));
        }
        reads
    }

    /// Whether `name` is watched.
    pub fn is_watching(&self, name: &String) -> (r: bool)
        ensures
            r == self@.contains(name@),
    {
        match self.position(name) {
            Some(i) => {
                assert(self@.contains(name@)) by {
                    assert(self.watched@[i as int]@ == name@);
                }
                true
            },
            None => false,
        }
    }
}

/// Turns the outcome of each read into events: one for every read that
/// succeeded, in order. A failed read is dropped; a later write brings
/// another attempt.
pub fn asset_events(reads: Vec<(String, Option<Vec<u8>>)>) -> (r: Vec<Event>)
    ensures
        r@.map_values(|e: Event| e@) == emitted(reads@),
{
    let ghost all = reads@;
    let total: usize = reads.len();
    let mut rest = reads;
    let mut r: Vec<Event> = Vec::new();
    let mut k: usize = 0;
    while rest.len() > 0
        invariant
            all.len() == total,
            k + rest@.len() == all.len(),
            rest@ == all.subrange(k as int, all.len() as int),
            r@.map_values(|e: Event| e@) == emitted(all.subrange(0, k as int)),
        decreases rest@.len(),
    {
        let (name, outcome) = rest.remove(0);
        proof {
            assert(all.subrange(0, k + 1).drop_last() =~= all.subrange(0, k as int));
            assert(all.subrange(0, k + 1).last() == all[k as int]);
        }
        match outcome {
            Some(bytes) => {
                r.push(Event::FileContents(name, bytes));
            },
            None => {},
        }
        proof {
            assert(r@.map_values(|e: Event| e@) =~= emitted(all.subrange(0, k + 1)));
        }
        k = k + 1;
    }
    proof {
        assert(all.subrange(0, k as int) =~= all);
    }
    r
}

} // verus!
