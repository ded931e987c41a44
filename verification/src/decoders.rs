use vstd::prelude::*;
use crate::errors::CoreError;

verus! {

/// A registry's contents, abstractly: the identifying keys of its
/// components in load order.
pub open spec fn spec_has_key(keys: Seq<Seq<char>>, key: Seq<char>) -> bool {
    exists|i: int| 0 <= i < keys.len() && keys[i] == key
}

/// What one step of a batch add does to a registry: a component whose
/// load failed or whose key is already present is skipped, any other is
/// appended (order of addition is preserved).
pub open spec fn spec_add_key(keys: Seq<Seq<char>>, key: Seq<char>, load_succeeded: bool) -> Seq<
    Seq<char>,
> {
    if load_succeeded && !spec_has_key(keys, key) {
        keys.push(key)
    } else {
        keys
    }
}

/// No key occurs twice.
pub open spec fn spec_keys_unique(keys: Seq<Seq<char>>) -> bool {
    forall|i: int, j: int| 0 <= i < j < keys.len() ==> keys[i] != keys[j]
}

/// Idempotent add: adding the same key twice (with both loads succeeding)
/// grows the registry by exactly one entry — the second add is a no-op.
pub proof fn lemma_add_idempotent(keys: Seq<Seq<char>>, key: Seq<char>)
    ensures
        ({
            let once = spec_add_key(keys, key, true);
            let twice = spec_add_key(once, key, true);
            &&& twice == once
            &&& !spec_has_key(keys, key) ==> once.len() == keys.len() + 1
            &&& spec_has_key(keys, key) ==> once == keys
        }),
{
    let once = spec_add_key(keys, key, true);
    if !spec_has_key(keys, key) {
        assert(once[keys.len() as int] == key);
        assert(spec_has_key(once, key));
    }
}

/// The ordered chain of sandboxed value-decoder components, identified by
/// the source path each was loaded from.  The chain invokes decoders in
/// load order; a path is present at most once.  The sandboxed instances
/// themselves live with the driver of the step protocol below: the
/// registry holds every decision about them.
pub struct DecoderRegistry {
    pub paths: Vec<String>,
}

/// One step of the decoder-chain protocol for a single `format` call.
/// The driver invokes the decoder named by a pending step, feeds its
/// output back in, and never consults the decoders in any other order;
/// the chain's decisions are all made here.
pub enum FormatStep {
    /// Invoke the decoder at `index` in the chain on `input` and resume
    /// the protocol with its output.  If the invocation traps, the whole
    /// `format` call fails with `ComponentInvocationTrap` — no partial
    /// result is used.
    Pending { index: usize, input: String },
    /// The chain is exhausted; `output` is the formatted text.
    Done { output: String },
}

/// The abstract content of a protocol step.
pub ghost enum FormatStepModel {
    Pending { index: int, input: Seq<char> },
    Done { output: Seq<char> },
}

impl FormatStep {
    pub open spec fn model(self) -> FormatStepModel {
        match self {
            FormatStep::Pending { index, input } => FormatStepModel::Pending {
                index: index as int,
                input: input@,
            },
            FormatStep::Done { output } => FormatStepModel::Done { output: output@ },
        }
    }
}

/// The first step of a `format` call against a chain of `n` decoders:
/// with no decoder registered the raw value passes through unchanged,
/// otherwise the first decoder receives the raw value.
pub open spec fn begin_model(n: int, value: Seq<char>) -> FormatStepModel {
    if n == 0 {
        FormatStepModel::Done { output: value }
    } else {
        FormatStepModel::Pending { index: 0, input: value }
    }
}

/// The step after the decoder at `index` answered `output`: the next
/// decoder receives that output, and the last decoder's output is the
/// result of the whole chain.
pub open spec fn resume_model(n: int, index: int, output: Seq<char>) -> FormatStepModel {
    if index + 1 >= n {
        FormatStepModel::Done { output }
    } else {
        FormatStepModel::Pending { index: index + 1, input: output }
    }
}

/// Decoder identity law: with zero decoders registered, `format`
/// returns the raw value itself, for every value.
pub proof fn lemma_format_identity(value: Seq<char>)
    ensures
        begin_model(0, value) == (FormatStepModel::Done { output: value }),
{
}

/// Decoder composition law: with exactly the decoders `D1` then `D2`
/// registered, one `format` call hands the raw value to `D1`, hands
/// `D1`'s output to `D2`, and returns `D2`'s output — `format(v) ==
/// D2(D1(v))`, whatever the two decoders compute.
pub proof fn lemma_format_composes(value: Seq<char>, d1_output: Seq<char>, d2_output: Seq<char>)
    ensures
        begin_model(2, value) == (FormatStepModel::Pending { index: 0, input: value }),
        resume_model(2, 0, d1_output) == (FormatStepModel::Pending {
            index: 1,
            input: d1_output,
        }),
        resume_model(2, 1, d2_output) == (FormatStepModel::Done { output: d2_output }),
{
}

impl DecoderRegistry {
    /// The registry's abstract content: its paths, in load order.
    pub open spec fn model(self) -> Seq<Seq<char>> {
        self.paths@.map_values(|p: String| p@)
    }

    pub open spec fn wf(self) -> bool {
        spec_keys_unique(self.model())
    }

    /// An empty chain.
    pub fn new() -> (r: DecoderRegistry)
        ensures
            r.model() == Seq::<Seq<char>>::empty(),
            r.wf(),
    {
        let r = DecoderRegistry { paths: Vec::new() };
        proof {
            assert(r.model() =~= Seq::<Seq<char>>::empty());
        }
        r
    }

    /// How many decoders are loaded.
    pub fn count(&self) -> (n: usize)
        ensures
            n == self.model().len(),
    {
        self.paths.len()
    }

    /// Whether a decoder was already loaded from this path.
    pub fn contains_path(&self, path: &String) -> (b: bool)
        ensures
            b == spec_has_key(self.model(), path@),
    {
        let mut i: usize = 0;
        while i < self.paths.len()
            invariant
                i <= self.paths@.len(),
                forall|a: int| 0 <= a < i ==> self.paths@[a]@ != path@,
            decreases self.paths@.len() - i,
        {
            if self.paths[i].eq(path) {
                proof {
                    assert(self.model()[i as int] == path@);
                }
                return true;
            }
            i = i + 1;
        }
        proof {
            assert forall|a: int| 0 <= a < self.model().len() implies self.model()[a]
                != path@ by {
                assert(self.model()[a] == self.paths@[a]@);
            }
        }
        false
    }

    /// One step of a batch add.  The caller has attempted to load `path`
    /// as a sandboxed component (`load_succeeded` reports the sandbox's
    /// verdict); the registry appends it unless it failed to load or
    /// duplicates an already-loaded path, and says whether it was newly
    /// added.  Failures are skipped, never surfaced: a batch's result is
    /// the count of adds that returned true.
    pub fn add_path(&mut self, path: String, load_succeeded: bool) -> (added: bool)
        requires
            old(self).wf(),
        ensures
            final(self).wf(),
            added == (load_succeeded && !spec_has_key(old(self).model(), path@)),
            final(self).model() == spec_add_key(old(self).model(), path@, load_succeeded),
    {
        if !load_succeeded {
            return false;
        }
        if self.contains_path(&path) {
            return false;
        }
        proof {
            let m = self.model();
            assert forall|i: int, j: int|
                0 <= i < j < m.push(path@).len() implies m.push(path@)[i] != m.push(
                path@,
            )[j] by {
                if j < m.len() {
                } else {
                    assert(m.push(path@)[j] == path@);
                    assert(m.push(path@)[i] == m[i]);
                    assert(!spec_has_key(m, path@));
                }
            }
        }
        let ghost before = self.model();
        self.paths.push(path);
        proof {
            assert(self.model() =~= before.push(self.paths@.last()@));
        }
        true
    }

    /// Evicts every loaded decoder and reports how many there were.
    pub fn remove_all(&mut self) -> (n: usize)
        ensures
            n == old(self).model().len(),
            final(self).model() == Seq::<Seq<char>>::empty(),
            final(self).wf(),
    {
        let n = self.paths.len();
        self.paths = Vec::new();
        proof {
            assert(self.model() =~= Seq::<Seq<char>>::empty());
        }
        n
    }

    /// Starts one `format` call: with the registry empty the value passes
    /// through unchanged (identity), otherwise the first decoder of the
    /// chain must be invoked on it.
    pub fn format_begin(&self, value: String) -> (s: FormatStep)
        ensures
            s.model() == begin_model(self.model().len() as int, value@),
    {
        if self.paths.len() == 0 {
            FormatStep::Done { output: value }
        } else {
            FormatStep::Pending { index: 0, input: value }
        }
    }

    /// Resumes the protocol after the decoder at `index` answered
    /// `output`: the next decoder of the chain receives it, and the last
    /// decoder's answer is the chain's result.
    pub fn format_resume(&self, index: usize, output: String) -> (s: FormatStep)
        requires
            index < self.model().len(),
        ensures
            s.model() == resume_model(self.model().len() as int, index as int, output@),
    {
        if index >= self.paths.len() - 1 {
            FormatStep::Done { output }
        } else {
            FormatStep::Pending { index: index + 1, input: output }
        }
    }

    /// The error a trapping invocation turns into: the whole `format`
    /// call is abandoned with the trapping decoder's chain position and
    /// the sandbox's report; no partial result is used, and the registry
    /// itself is unaffected.
    pub fn format_trap(&self, index: usize, cause: String) -> (e: CoreError)
        ensures
            e matches CoreError::ComponentInvocationTrap { index: i, cause: c } && i == index
                && c@ == cause@,
    {
        CoreError::ComponentInvocationTrap { index, cause }
    }
}

} // verus!
