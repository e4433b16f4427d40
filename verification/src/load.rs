//! The load gate: the per-asset state machine that decides, from the host
//! load state, when the one-time atlas build runs and when the
//! process-wide default asset is substituted; the per-document tracker of
//! which declared sources still await their bytes; and the named-step
//! progress counter that gates the game-ready signal.
use vstd::prelude::*;

use crate::dict::Dict;

verus! {

/// The host's report on one asset's load.
pub enum LoadState {
    NotLoaded,
    Loading,
    Failed,
    Loaded,
}

/// What the caller must do with an asset in a given load state.
pub enum LoadAction {
    /// Ask the host to load the asset again.
    Retry,
    /// Do nothing this pass.
    Wait,
    /// Substitute the process-wide default asset and mark the step done.
    UseDefault,
    /// Run the one-time atlas build and mark the step done.
    Build,
}

/// The decision the load check takes on every pass: retry a load
/// the host dropped, wait while it runs, fall back to the default asset on
/// failure, and build exactly when the load has finished.
pub fn check_load_action(s: &LoadState) -> (r: LoadAction)
    ensures
        s is NotLoaded ==> r is Retry,
        s is Loading ==> r is Wait,
        s is Failed ==> r is UseDefault,
        s is Loaded ==> r is Build,
{
    match s {
        LoadState::NotLoaded => LoadAction::Retry,
        LoadState::Loading => LoadAction::Wait,
        LoadState::Failed => LoadAction::UseDefault,
        LoadState::Loaded => LoadAction::Build,
    }
}

/// Which of one document's declared sources have delivered their bytes,
/// and whether any of them failed for good. The atlas build may run only
/// once every source is in and none failed.
pub struct SourceTracker {
    /// One flag per declared source: has it delivered?
    pub status: Dict<bool>,
    /// Set once any source's load fails; the whole asset then falls back.
    pub failed: bool,
}

impl SourceTracker {
    pub open spec fn all_in(&self) -> bool {
        forall|i: int| 0 <= i < self.status.spec_len() ==> self.status.vals()[i]
    }

    pub fn new() -> (r: Self)
        ensures
            r.status.wf(),
            r.status.spec_len() == 0,
            !r.failed,
    {
        SourceTracker { status: Dict::new(), failed: false }
    }

    /// Declare a source that must deliver before the build may run.
    pub fn register(&mut self, name: &str)
        requires
            old(self).status.wf(),
        ensures
            final(self).status.wf(),
            final(self).status.contents() == old(self).status.contents().insert(name@, false),
            final(self).failed == old(self).failed,
    {
        self.status.insert(String::from_str(name), false);
    }

    /// Record that a source's bytes arrived and decoded.
    pub fn complete(&mut self, name: &str)
        requires
            old(self).status.wf(),
        ensures
            final(self).status.wf(),
            final(self).status.contents() == old(self).status.contents().insert(name@, true),
            final(self).failed == old(self).failed,
    {
        self.status.insert(String::from_str(name), true);
    }

    /// Record that a source's load failed for good.
    pub fn fail(&mut self)
        ensures
            final(self).failed,
            final(self).status == old(self).status,
    {
        self.failed = true;
    }

    /// Whether the build may run: every declared source delivered and none
    /// failed.
    pub fn ready(&self) -> (r: bool)
        requires
            self.status.wf(),
        ensures
            r == (!self.failed && self.all_in()),
    {
        if self.failed {
            return false;
        }
        let n = self.status.len();
        let mut i: usize = 0;
        while i < n
            invariant
                i <= n,
                n == self.status.spec_len(),
                forall|j: int| 0 <= j < i ==> self.status.vals()[j],
            decreases n - i,
        {
            let pair = self.status.pair_at(i);
            if !pair.1 {
                return false;
            }
            i = i + 1;
        }
        true
    }
}

/// The directory prefix of a source path, separator included, as the
/// loader prepended it to each declared source: empty for a bare file
/// name.
pub fn dir_of(path: &str) -> (r: String)
    ensures
        (forall|i: int| 0 <= i < path@.len() ==> path@[i] != '/') ==> r@ == Seq::<char>::empty(),
        (exists|k: int| 0 <= k < path@.len() && path@[k] == '/') ==> exists|k: int|
            0 <= k < path@.len() && path@[k] == '/' && (forall|j: int|
                k < j < path@.len() ==> path@[j] != '/') && r@ == path@.take(k + 1),
{
    let n = path.unicode_len();
    let mut i: usize = n;
    while i > 0
        invariant
            i <= n,
            n == path@.len(),
            forall|j: int| i <= j < n ==> path@[j] != '/',
        decreases i,
    {
        i = i - 1;
        if path.get_char(i) == '/' {
            return String::from_str(path.substring_char(0, i + 1));
        }
    }
    proof {
        reveal_strlit("");
        assert(""@ =~= Seq::<char>::empty());
    }
    String::from_str("")
}

/// The extension after a path's last dot, as the loader read it to pick
/// the image decoder; `None` for a path with no dot.
pub fn extension_of(path: &str) -> (r: Option<String>)
    ensures
        (forall|i: int| 0 <= i < path@.len() ==> path@[i] != '.') ==> r is None,
        (exists|k: int| 0 <= k < path@.len() && path@[k] == '.') ==> exists|k: int|
            0 <= k < path@.len() && path@[k] == '.' && (forall|j: int|
                k < j < path@.len() ==> path@[j] != '.') && (r matches Some(e) && e@ == path@.skip(
                k + 1,
            )),
{
    let n = path.unicode_len();
    let mut i: usize = n;
    while i > 0
        invariant
            i <= n,
            n == path@.len(),
            forall|j: int| i <= j < n ==> path@[j] != '.',
        decreases i,
    {
        i = i - 1;
        if path.get_char(i) == '.' {
            return Some(String::from_str(path.substring_char(i + 1, n)));
        }
    }
    None
}

/// A big-endian 32-bit integer read from four bytes.
pub open spec fn be_u32(b0: u8, b1: u8, b2: u8, b3: u8) -> int {
    (b0 as int) * 0x1000000 + (b1 as int) * 0x10000 + (b2 as int) * 0x100 + (b3 as int)
}

/// Whether the bytes begin with the PNG signature and are long enough to
/// hold the image-header dimensions.
pub open spec fn is_png_header(b: Seq<u8>) -> bool {
    &&& b.len() >= 24
    &&& b[0] == 0x89u8
    &&& b[1] == 0x50u8
    &&& b[2] == 0x4eu8
    &&& b[3] == 0x47u8
    &&& b[4] == 0x0du8
    &&& b[5] == 0x0au8
    &&& b[6] == 0x1au8
    &&& b[7] == 0x0au8
}

/// The pixel width and height of a PNG image, read big-endian from its
/// image header; `None` for bytes that are not a PNG. Only these two
/// numbers of a source image reach the library — decoding the pixels is
/// the host's work.
pub fn png_dims(bytes: &[u8]) -> (r: Option<(u32, u32)>)
    ensures
        r is Some <==> is_png_header(bytes@),
        r matches Some(d) ==> d.0 == be_u32(bytes@[16], bytes@[17], bytes@[18], bytes@[19])
            && d.1 == be_u32(bytes@[20], bytes@[21], bytes@[22], bytes@[23]),
{
    if bytes.len() < 24 {
        return None;
    }
    if !(bytes[0] == 0x89 && bytes[1] == 0x50 && bytes[2] == 0x4e && bytes[3] == 0x47 && bytes[4]
        == 0x0d && bytes[5] == 0x0a && bytes[6] == 0x1a && bytes[7] == 0x0a) {
        return None;
    }
    let w: u32 = (bytes[16] as u32) * 0x1000000 + (bytes[17] as u32) * 0x10000 + (bytes[18]
        as u32) * 0x100 + (bytes[19] as u32);
    let h: u32 = (bytes[20] as u32) * 0x1000000 + (bytes[21] as u32) * 0x10000 + (bytes[22]
        as u32) * 0x100 + (bytes[23] as u32);
    Some((w, h))
}

/// How many of a sequence of step flags are set.
pub open spec fn count_true(s: Seq<bool>) -> int
    decreases s.len(),
{
    if s.len() == 0 {
        0
    } else {
        count_true(s.drop_last()) + if s.last() {
            1int
        } else {
            0int
        }
    }
}

/// The named loading steps, each marked done or not; the game starts when
/// every step is done.
pub struct LoadProcess {
    pub steps: Dict<bool>,
}

impl LoadProcess {
    pub fn new() -> (r: Self)
        ensures
            r.steps.wf(),
            r.steps.spec_len() == 0,
    {
        LoadProcess { steps: Dict::new() }
    }

    /// Declare a named step as pending.
    pub fn add(&mut self, step_name: &str)
        requires
            old(self).steps.wf(),
        ensures
            final(self).steps.wf(),
            final(self).steps.contents() == old(self).steps.contents().insert(step_name@, false),
    {
        self.steps.insert(String::from_str(step_name), false);
    }

    /// Mark a declared step done: the step must have been added.
    pub fn set(&mut self, step_name: &str)
        requires
            old(self).steps.wf(),
            old(self).steps.contents().contains_key(step_name@),
        ensures
            final(self).steps.wf(),
            final(self).steps.contents() == old(self).steps.contents().insert(step_name@, true),
    {
        self.steps.insert(String::from_str(step_name), true);
    }

    /// How many steps are done, out of how many: the numbers the loading
    /// screen shows each pass.
    pub fn progress(&self) -> (r: (usize, usize))
        requires
            self.steps.wf(),
        ensures
            r.0 == count_true(self.steps.vals()),
            r.1 == self.steps.spec_len(),
            r.0 <= r.1,
    {
        let n = self.steps.len();
        let mut now: usize = 0;
        let mut i: usize = 0;
        proof {
            assert(self.steps.vals().take(0) =~= Seq::<bool>::empty());
        }
        while i < n
            invariant
                i <= n,
                n == self.steps.spec_len(),
                now == count_true(self.steps.vals().take(i as int)),
                now <= i,
            decreases n - i,
        {
            let pair = self.steps.pair_at(i);
            proof {
                assert(self.steps.vals().take(i + 1).drop_last() =~= self.steps.vals().take(
                    i as int,
                ));
                assert(self.steps.vals().take(i + 1).last() == self.steps.vals()[i as int]);
            }
            if pair.1 {
                now = now + 1;
            }
            i = i + 1;
        }
        proof {
            assert(self.steps.vals().take(n as int) =~= self.steps.vals());
        }
        (now, n)
    }

    /// Whether every declared step is done: the game-ready signal.
    pub fn is_complete(&self) -> (r: bool)
        requires
            self.steps.wf(),
        ensures
            r == (count_true(self.steps.vals()) == self.steps.spec_len()),
    {
        let (now, end) = self.progress();
        now == end
    }

    /// Clear every step once loading ends.
    pub fn reset(&mut self)
        ensures
            final(self).steps.wf(),
            final(self).steps.spec_len() == 0,
    {
        self.steps = Dict::new();
    }
}

} // verus!
