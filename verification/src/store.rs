use vstd::prelude::*;
use vstd::pervasive::VecAdditionalExecFns;
use crate::errors::CoreError;
use crate::compositor::{compose_timeline, timeline_blocks, blocks_match};
use crate::timeline::{Timeline, VarFormat, blocks_ordered};

verus! {

/// One entry of a signal's change series: at `time_index` the signal takes
/// `value` and keeps it until the next entry's time-index.
#[derive(Debug)]
pub struct RawChange {
    pub time_index: u32,
    pub value: String,
}

/// A change series is well-formed when it is strictly ascending by
/// time-index and already coalesced: no two consecutive entries carry the
/// same value.
pub open spec fn changes_wf(cs: Seq<RawChange>) -> bool {
    &&& forall|i: int, j: int|
        0 <= i < j < cs.len() ==> cs[i].time_index < cs[j].time_index
    &&& forall|i: int| 0 <= i < cs.len() - 1 ==> #[trigger] cs[i].value@ != cs[i + 1].value@
}

/// Every change of the series refers to an entry of the time table.
pub open spec fn changes_within(cs: Seq<RawChange>, table_len: int) -> bool {
    forall|i: int| 0 <= i < cs.len() ==> cs[i].time_index < table_len
}

/// The time table maps each time-index to an absolute time and never
/// decreases.
pub open spec fn table_sorted(table: Seq<u64>) -> bool {
    forall|i: int, j: int| 0 <= i <= j < table.len() ==> table[i] <= table[j]
}

/// One variable of the hierarchy: its scope-qualified name and the signal
/// it refers to.  The hierarchy is read-only and opaque to the core beyond
/// identity, so it is carried as a flat list of such entries.
#[derive(Debug)]
pub struct HierarchyVar {
    pub name: String,
    pub signal_ref: usize,
}

/// The signal hierarchy of an open waveform.
#[derive(Debug)]
pub struct Hierarchy {
    pub vars: Vec<HierarchyVar>,
}

/// One open waveform: the hierarchy, the time table, the backend's change
/// series for every signal (`signals`, indexed by signal reference), and
/// which of those series are loaded into the store's cache.  A signal
/// reference is an index into `signals` and is valid only while this
/// waveform is the open one.
#[derive(Debug)]
pub struct Waveform {
    pub hierarchy: Hierarchy,
    pub time_table: Vec<u64>,
    pub signals: Vec<Vec<RawChange>>,
    pub loaded: Vec<bool>,
}

impl Waveform {
    /// Internal consistency: the time table is sorted, every change
    /// series is well-formed and points into the time table, the loaded
    /// flags cover exactly the signals, and every hierarchy entry refers
    /// to a signal.
    pub open spec fn wf(self) -> bool {
        &&& table_sorted(self.time_table@)
        &&& self.loaded@.len() == self.signals@.len()
        &&& forall|s: int|
            0 <= s < self.signals@.len() ==> changes_wf(#[trigger] self.signals@[s]@)
        &&& forall|s: int|
            0 <= s < self.signals@.len() ==> changes_within(
                #[trigger] self.signals@[s]@,
                self.time_table@.len() as int,
            )
        &&& forall|v: int|
            0 <= v < self.hierarchy.vars@.len() ==> (#[trigger] self.hierarchy.vars@[v].signal_ref)
                < self.signals@.len()
    }

    /// The data the backend must deliver for `new` to accept it.
    pub open spec fn input_valid(
        hierarchy: Hierarchy,
        time_table: Seq<u64>,
        signals: Seq<Vec<RawChange>>,
    ) -> bool {
        &&& table_sorted(time_table)
        &&& forall|s: int| 0 <= s < signals.len() ==> changes_wf(#[trigger] signals[s]@)
        &&& forall|s: int|
            0 <= s < signals.len() ==> changes_within(
                #[trigger] signals[s]@,
                time_table.len() as int,
            )
        &&& forall|v: int|
            0 <= v < hierarchy.vars@.len() ==> (#[trigger] hierarchy.vars@[v].signal_ref)
                < signals.len()
    }

    /// Builds a waveform from the backend's parse results, with no signal
    /// loaded yet.  Data that breaks the backend's own guarantees (an
    /// unsorted time table, an unsorted or uncoalesced change series, a
    /// hierarchy entry pointing at no signal) is rejected as a load
    /// failure, leaving any previously open waveform untouched.
    pub fn new(hierarchy: Hierarchy, time_table: Vec<u64>, signals: Vec<Vec<RawChange>>) -> (r:
        Result<Waveform, CoreError>)
        ensures
            match r {
                Ok(w) => {
                    &&& w.wf()
                    &&& w.hierarchy == hierarchy
                    &&& w.time_table == time_table
                    &&& w.signals == signals
                    &&& w.loaded@ == Seq::new(signals@.len(), |i: int| false)
                    &&& Waveform::input_valid(hierarchy, time_table@, signals@)
                },
                Err(e) => {
                    &&& e is LoadFailure
                    &&& !Waveform::input_valid(hierarchy, time_table@, signals@)
                },
            },
    {
        let mut i: usize = 1;
        while i < time_table.len()
            invariant
                1 <= i,
                forall|a: int, b: int| 0 <= a <= b < i && b < time_table@.len()
                    ==> time_table@[a] <= time_table@[b],
            decreases time_table@.len() - i,
        {
            if time_table[i - 1] > time_table[i] {
                proof {
                    assert(time_table@[i - 1] > time_table@[i as int]);
                    assert(!table_sorted(time_table@));
                }
                return Err(CoreError::LoadFailure);
            }
            i = i + 1;
        }
        assert(table_sorted(time_table@));
        let mut s: usize = 0;
        while s < signals.len()
            invariant
                s <= signals@.len(),
                forall|a: int| 0 <= a < s ==> changes_wf(#[trigger] signals@[a]@),
                forall|a: int|
                    0 <= a < s ==> changes_within(
                        #[trigger] signals@[a]@,
                        time_table@.len() as int,
                    ),
            decreases signals@.len() - s,
        {
            let cs: &Vec<RawChange> = &signals[s];
            let mut j: usize = 0;
            while j < cs.len()
                invariant
                    s < signals@.len(),
                    cs@ == signals@[s as int]@,
                    j <= cs@.len(),
                    forall|a: int, b: int| 0 <= a < b < cs@.len() && b <= j ==> cs@[a].time_index
                        < cs@[b].time_index,
                    forall|a: int| 0 <= a && a + 1 < cs@.len() && a + 1 <= j
                        ==> #[trigger] cs@[a].value@ != cs@[a + 1].value@,
                    forall|a: int| 0 <= a < j ==> cs@[a].time_index < time_table@.len(),
                decreases cs@.len() - j,
            {
                if cs[j].time_index as usize >= time_table.len() {
                    proof {
                        assert(signals@[s as int]@[j as int].time_index >= time_table@.len());
                        assert(!changes_within(signals@[s as int]@, time_table@.len() as int));
                    }
                    return Err(CoreError::LoadFailure);
                }
                if j + 1 < cs.len() {
                    if cs[j].time_index >= cs[j + 1].time_index {
                        proof {
                            assert(!(signals@[s as int]@[j as int].time_index < signals@[
                                s as int]@[j as int + 1].time_index));
                            assert(!changes_wf(signals@[s as int]@));
                        }
                        return Err(CoreError::LoadFailure);
                    }
                    if cs[j].value == cs[j + 1].value {
                        proof {
                            assert(signals@[s as int]@[j as int].value@ == signals@[s as int]@[
                                j as int + 1].value@);
                            assert(!changes_wf(signals@[s as int]@));
                        }
                        return Err(CoreError::LoadFailure);
                    }
                }
                j = j + 1;
            }
            assert(changes_wf(cs@));
            assert(changes_within(cs@, time_table@.len() as int));
            s = s + 1;
        }
        let mut v: usize = 0;
        while v < hierarchy.vars.len()
            invariant
                v <= hierarchy.vars@.len(),
                forall|a: int| 0 <= a < v ==> (#[trigger] hierarchy.vars@[a].signal_ref)
                    < signals@.len(),
            decreases hierarchy.vars@.len() - v,
        {
            if hierarchy.vars[v].signal_ref >= signals.len() {
                return Err(CoreError::LoadFailure);
            }
            v = v + 1;
        }
        let mut loaded: Vec<bool> = Vec::new();
        let mut k: usize = 0;
        while k < signals.len()
            invariant
                k <= signals@.len(),
                loaded@ == Seq::new(k as nat, |i: int| false),
            decreases signals@.len() - k,
        {
            loaded.push(false);
            proof {
                assert(loaded@ =~= Seq::new(k as nat + 1, |i: int| false));
            }
            k = k + 1;
        }
        Ok(Waveform { hierarchy, time_table, signals, loaded })
    }
}

/// The store that owns the single currently open waveform and mediates
/// the load/unload lifecycle of its signals.  `generation` grows by one
/// each time a waveform is opened, so that requests issued against a
/// previous waveform can be recognized and refused.
#[derive(Debug)]
pub struct WaveformStore {
    pub waveform: Option<Waveform>,
    pub generation: u64,
}

impl WaveformStore {
    pub open spec fn wf(self) -> bool {
        self.waveform matches Some(w) ==> w.wf()
    }

    /// A store with no waveform open.
    pub fn new() -> (s: WaveformStore)
        ensures
            s.waveform is None,
            s.generation == 0,
            s.wf(),
    {
        WaveformStore { waveform: None, generation: 0 }
    }

    /// Opens a waveform, atomically replacing any open one (whose loaded
    /// signal data is dropped) and invalidating the previous generation's
    /// signal references.  Returns the new generation.
    pub fn open(&mut self, w: Waveform) -> (g: u64)
        requires
            old(self).wf(),
            w.wf(),
            old(self).generation < u64::MAX,
        ensures
            final(self).wf(),
            final(self).waveform == Some(w),
            final(self).generation == old(self).generation + 1,
            g == final(self).generation,
    {
        self.waveform = Some(w);
        self.generation = self.generation + 1;
        self.generation
    }

    /// The hierarchy of the open waveform.
    pub fn hierarchy(&self) -> (r: Result<&Hierarchy, CoreError>)
        ensures
            match r {
                Ok(h) => self.waveform matches Some(w) && *h == w.hierarchy,
                Err(e) => self.waveform is None && e is NoWaveformLoaded,
            },
    {
        match &self.waveform {
            Some(w) => Ok(&w.hierarchy),
            None => Err(CoreError::NoWaveformLoaded),
        }
    }

    /// The time table of the open waveform.
    pub fn time_table(&self) -> (r: Result<&Vec<u64>, CoreError>)
        ensures
            match r {
                Ok(t) => self.waveform matches Some(w) && *t == w.time_table,
                Err(e) => self.waveform is None && e is NoWaveformLoaded,
            },
    {
        match &self.waveform {
            Some(w) => Ok(&w.time_table),
            None => Err(CoreError::NoWaveformLoaded),
        }
    }

    /// Loads a signal's change series into the cache.  Idempotent: loading
    /// a loaded signal is a no-op.  Fails only when no waveform is open or
    /// the reference names no signal of the open one; nothing else about
    /// the store changes.
    pub fn load_signal(&mut self, signal_ref: usize) -> (r: Result<(), CoreError>)
        requires
            old(self).wf(),
        ensures
            final(self).wf(),
            final(self).generation == old(self).generation,
            match r {
                Ok(()) => {
                    &&& old(self).waveform matches Some(w) && signal_ref < w.signals@.len()
                    &&& final(self).waveform matches Some(w2)
                        && old(self).waveform matches Some(w) && w2.hierarchy == w.hierarchy
                        && w2.time_table == w.time_table && w2.signals == w.signals
                        && w2.loaded@ == w.loaded@.update(signal_ref as int, true)
                },
                Err(e) => {
                    &&& *final(self) == *old(self)
                    &&& (old(self).waveform is None ==> e is NoWaveformLoaded)
                    &&& (old(self).waveform matches Some(w) ==> signal_ref >= w.signals@.len()
                        && e is SignalNotLoaded)
                },
            },
    {
        match &mut self.waveform {
            Some(w) => {
                if signal_ref < w.loaded.len() {
                    w.loaded.set(signal_ref, true);
                    Ok(())
                } else {
                    Err(CoreError::SignalNotLoaded)
                }
            },
            None => Err(CoreError::NoWaveformLoaded),
        }
    }

    /// The cached change series of a loaded signal.  The store never
    /// auto-loads on read: a signal that was not loaded first (or was
    /// unloaded since) is refused.
    pub fn get_signal(&self, signal_ref: usize) -> (r: Result<&Vec<RawChange>, CoreError>)
        requires
            self.wf(),
        ensures
            match r {
                Ok(cs) => {
                    &&& self.waveform matches Some(w) && signal_ref < w.signals@.len()
                        && w.loaded@[signal_ref as int] && *cs == w.signals@[signal_ref as int]
                },
                Err(e) => {
                    &&& (self.waveform is None ==> e is NoWaveformLoaded)
                    &&& (self.waveform matches Some(w) ==> ((signal_ref >= w.signals@.len()
                        || !w.loaded@[signal_ref as int]) && e is SignalNotLoaded))
                },
            },
    {
        match &self.waveform {
            Some(w) => {
                if signal_ref < w.loaded.len() {
                    if w.loaded[signal_ref] {
                        Ok(&w.signals[signal_ref])
                    } else {
                        Err(CoreError::SignalNotLoaded)
                    }
                } else {
                    Err(CoreError::SignalNotLoaded)
                }
            },
            None => Err(CoreError::NoWaveformLoaded),
        }
    }

    /// Unloads a signal's cached series, freeing the cache slot.
    /// Idempotent and total: unloading an unknown or never-loaded signal,
    /// or with no waveform open, is a no-op.
    pub fn unload_signal(&mut self, signal_ref: usize)
        requires
            old(self).wf(),
        ensures
            final(self).wf(),
            final(self).generation == old(self).generation,
            old(self).waveform is None ==> *final(self) == *old(self),
            old(self).waveform matches Some(w) ==> {
                &&& final(self).waveform matches Some(w2) && w2.hierarchy == w.hierarchy
                    && w2.time_table == w.time_table && w2.signals == w.signals
                &&& (signal_ref < w.signals@.len() ==> (final(self).waveform matches Some(w2)
                    && w2.loaded@ == w.loaded@.update(signal_ref as int, false)))
                &&& (signal_ref >= w.signals@.len() ==> (final(self).waveform matches Some(w2)
                    && w2.loaded@ == w.loaded@))
            },
    {
        match &mut self.waveform {
            Some(w) => {
                if signal_ref < w.loaded.len() {
                    w.loaded.set(signal_ref, false);
                }
            },
            None => {},
        }
    }

    /// Serves one viewport request: ensures the signal's data is loaded,
    /// then delegates to the compositor.  A request that carries a stale
    /// generation is refused with `WaveformReplaced` instead of silently
    /// reading the waveform that replaced its own.  An unmappable viewport
    /// (zero zoom or zero width) yields an empty timeline by design, not
    /// an error.  The blocks realize `timeline_blocks` for the signal's
    /// series, are x-ascending and non-overlapping, and never outnumber
    /// the viewport width.  The display-format selector is carried to the
    /// formatting step and not interpreted here.
    pub fn render_timeline(
        &mut self,
        expected_generation: u64,
        signal_ref: usize,
        zoom: u64,
        viewport_width: u32,
        viewport_x: i32,
        block_height: u32,
        _var_format: VarFormat,
    ) -> (r: Result<Timeline, CoreError>)
        requires
            old(self).wf(),
            viewport_width <= 0x7fff_ffff,
        ensures
            final(self).wf(),
            final(self).generation == old(self).generation,
            match r {
                Ok(tl) => {
                    &&& old(self).waveform matches Some(w)
                    &&& expected_generation == old(self).generation
                    &&& signal_ref < w.signals@.len()
                    &&& final(self).waveform matches Some(w2)
                        && old(self).waveform matches Some(w) && w2.hierarchy == w.hierarchy
                        && w2.time_table == w.time_table && w2.signals == w.signals
                        && w2.loaded@ == w.loaded@.update(signal_ref as int, true)
                    &&& blocks_ordered(tl.blocks@)
                    &&& tl.blocks@.len() <= viewport_width
                    &&& ((zoom == 0 || viewport_width == 0) ==> tl.blocks@.len() == 0)
                    &&& ((zoom >= 1 && viewport_width >= 1) ==> (old(self).waveform matches Some(
                        w,
                    ) && blocks_match(
                        tl.blocks@,
                        timeline_blocks(
                            w.signals@[signal_ref as int]@,
                            w.time_table@,
                            zoom as int,
                            viewport_x as int,
                            viewport_width as int,
                        ),
                        block_height,
                    )))
                },
                Err(e) => {
                    &&& *final(self) == *old(self)
                    &&& (old(self).waveform is None ==> e is NoWaveformLoaded)
                    &&& (old(self).waveform is Some && expected_generation != old(self).generation
                        ==> e is WaveformReplaced)
                    &&& (old(self).waveform matches Some(w) ==> (expected_generation == old(
                        self,
                    ).generation ==> (signal_ref >= w.signals@.len() && e is SignalNotLoaded)))
                },
            },
    {
        match &mut self.waveform {
            Some(w) => {
                if expected_generation != self.generation {
                    return Err(CoreError::WaveformReplaced);
                }
                if signal_ref >= w.loaded.len() {
                    return Err(CoreError::SignalNotLoaded);
                }
                w.loaded.set(signal_ref, true);
                let tl = compose_timeline(
                    &w.signals[signal_ref],
                    &w.time_table,
                    zoom,
                    viewport_width,
                    viewport_x,
                    block_height,
                );
                Ok(tl)
            },
            None => Err(CoreError::NoWaveformLoaded),
        }
    }
}

/// Load/unload round trip: loading, unloading and loading a signal again
/// leaves the cache flags exactly as a single load does; together with
/// the contracts of `load_signal`, `unload_signal` and `get_signal` (which
/// never touch the series data), `get_signal` after the round trip returns
/// the same series as after the first load alone.
pub proof fn lemma_load_unload_round_trip(loaded: Seq<bool>, signal_ref: int)
    requires
        0 <= signal_ref < loaded.len(),
    ensures
        loaded.update(signal_ref, true).update(signal_ref, false).update(signal_ref, true)
            == loaded.update(signal_ref, true),
{
    assert(loaded.update(signal_ref, true).update(signal_ref, false).update(signal_ref, true)
        =~= loaded.update(signal_ref, true));
}

} // verus!
