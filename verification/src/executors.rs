use vstd::prelude::*;

use crate::errors::Error;
use crate::inputs::{clone_vec, GeneralizedInput};

verus! {

/// A target executor together with its coverage observers.
///
/// `covers(input, idx)` is the deterministic coverage relation of the
/// target: whether running it on `input` sets the coverage-map index `idx`.
/// `observed(self)` is the input whose coverage the observers currently
/// hold, if any.
pub trait Executor: Sized {
    /// Whether running the target on `input` sets coverage-map index `idx`.
    spec fn covers(input: Seq<u8>, idx: usize) -> bool;

    /// The input whose coverage the observers currently hold.
    spec fn observed(&self) -> Option<Seq<u8>>;

    /// Whether an observer with this name is attached.
    spec fn has_observer(&self, name: Seq<char>) -> bool;

    /// The pre-execution observer hook. It reports execution failures,
    /// never a missing observer, and leaves the observer set alone.
    fn pre_exec(&mut self, input: &GeneralizedInput) -> (r: Result<(), Error>)
        ensures
            forall|n: Seq<char>| #[trigger] final(self).has_observer(n) == old(self).has_observer(
                n,
            ),
            r matches Err(e) ==> !(e is ObserverNotFound),
    ;

    /// Runs the target on `input`, leaving its coverage with the
    /// observers. It reports execution failures, never a missing observer,
    /// and leaves the observer set alone.
    fn run_target(&mut self, input: &GeneralizedInput) -> (r: Result<(), Error>)
        ensures
            r is Ok ==> final(self).observed() == Some(input.bytes@),
            forall|n: Seq<char>| #[trigger] final(self).has_observer(n) == old(self).has_observer(
                n,
            ),
            r matches Err(e) ==> !(e is ObserverNotFound),
    ;

    /// The post-execution observer hook; it leaves the held coverage and
    /// the observer set alone, and reports execution failures, never a
    /// missing observer.
    fn post_exec(&mut self, input: &GeneralizedInput) -> (r: Result<(), Error>)
        ensures
            final(self).observed() == old(self).observed(),
            forall|n: Seq<char>| #[trigger] final(self).has_observer(n) == old(self).has_observer(
                n,
            ),
            r matches Err(e) ==> !(e is ObserverNotFound),
    ;

    /// Asks the map observer called `name` how many of the given indices
    /// the held coverage sets; `None` exactly when no observer bears that
    /// name. The count reaches `novelties.len()` exactly when every index
    /// is covered.
    fn how_many_set(&self, name: &String, novelties: &Vec<usize>) -> (r: Option<usize>)
        ensures
            r is Some <==> self.has_observer(name@),
            r matches Some(c) ==> c <= novelties@.len(),
            r matches Some(c) ==> (self.observed() matches Some(inp) ==> ((c == novelties@.len())
                <==> (forall|i: int|
                    0 <= i < novelties@.len() ==> Self::covers(inp, #[trigger] novelties@[i])))),
    ;
}

/// A named map observer, as handed to the stage's constructor.
pub trait MapObserver {
    /// The observer's name.
    spec fn name_spec(&self) -> Seq<char>;

    /// The observer's name.
    fn name(&self) -> (r: &str)
        ensures
            r@ == self.name_spec(),
    ;
}

/// Whether the target covers every index in `novelties` on `input`.
pub open spec fn all_covered<E: Executor>(input: Seq<u8>, novelties: Seq<usize>) -> bool {
    forall|i: int| 0 <= i < novelties.len() ==> E::covers(input, #[trigger] novelties[i])
}

/// Whether `v` holds the byte `b`.
pub fn contains_byte(v: &Vec<u8>, b: u8) -> (r: bool)
    ensures
        r == exists|j: int| 0 <= j < v@.len() && v@[j] == b,
{
    let mut i: usize = 0;
    while i < v.len()
        invariant
            i <= v@.len(),
            forall|j: int| 0 <= j < i ==> v@[j] != b,
        decreases v@.len() - i,
    {
        if v[i] == b {
            return true;
        }
        i = i + 1;
    }
    false
}

/// A stub target for exercising the stage: it sets every coverage index
/// exactly when the input holds the byte `NEEDLE`, and it counts its runs.
pub struct NeedleExecutor<const NEEDLE: u8> {
    pub observer_name: String,
    pub last_run: Option<Vec<u8>>,
    pub runs: u64,
}

impl<const NEEDLE: u8> NeedleExecutor<NEEDLE> {
    /// A fresh stub whose single map observer bears `observer_name`.
    pub fn new(observer_name: String) -> (r: Self)
        ensures
            r.observer_name@ == observer_name@,
            r.last_run is None,
            r.runs == 0,
    {
        NeedleExecutor { observer_name, last_run: None, runs: 0 }
    }
}

impl<const NEEDLE: u8> Executor for NeedleExecutor<NEEDLE> {
    open spec fn covers(input: Seq<u8>, idx: usize) -> bool {
        exists|j: int| 0 <= j < input.len() && input[j] == NEEDLE
    }

    open spec fn has_observer(&self, name: Seq<char>) -> bool {
        name == self.observer_name@
    }

    open spec fn observed(&self) -> Option<Seq<u8>> {
        match self.last_run {
            Some(v) => Some(v@),
            None => None,
        }
    }

    fn pre_exec(&mut self, input: &GeneralizedInput) -> (r: Result<(), Error>) {
        Ok(())
    }

    fn run_target(&mut self, input: &GeneralizedInput) -> (r: Result<(), Error>) {
        self.last_run = Some(clone_vec(&input.bytes));
        if self.runs < u64::MAX {
            self.runs = self.runs + 1;
        }
        Ok(())
    }

    fn post_exec(&mut self, input: &GeneralizedInput) -> (r: Result<(), Error>) {
        Ok(())
    }

    fn how_many_set(&self, name: &String, novelties: &Vec<usize>) -> (r: Option<usize>) {
        if !(*name == self.observer_name) {
            return None;
        }
        match &self.last_run {
            None => Some(0),
            Some(v) => {
                let found = contains_byte(v, NEEDLE);
                proof {
                    if found {
                        assert forall|i: int| 0 <= i < novelties@.len() implies Self::covers(
                            v@,
                            #[trigger] novelties@[i],
                        ) by {}
                    } else if novelties@.len() > 0 {
                        assert(!Self::covers(v@, novelties@[0]));
                    }
                }
                if found {
                    Some(novelties.len())
                } else {
                    Some(0)
                }
            },
        }
    }
}

impl<const NEEDLE: u8> MapObserver for NeedleExecutor<NEEDLE> {
    open spec fn name_spec(&self) -> Seq<char> {
        self.observer_name@
    }

    fn name(&self) -> (r: &str) {
        self.observer_name.as_str()
    }
}

/// A stub target that sets every coverage index exactly when the input is
/// at least `MIN` bytes long: nothing can be deleted from a minimal input.
pub struct MinLenExecutor<const MIN: usize> {
    pub observer_name: String,
    pub last_run: Option<Vec<u8>>,
    pub runs: u64,
}

impl<const MIN: usize> MinLenExecutor<MIN> {
    /// A fresh stub whose single map observer bears `observer_name`.
    pub fn new(observer_name: String) -> (r: Self)
        ensures
            r.observer_name@ == observer_name@,
            r.last_run is None,
            r.runs == 0,
    {
        MinLenExecutor { observer_name, last_run: None, runs: 0 }
    }
}

impl<const MIN: usize> Executor for MinLenExecutor<MIN> {
    open spec fn covers(input: Seq<u8>, idx: usize) -> bool {
        input.len() >= MIN
    }

    open spec fn has_observer(&self, name: Seq<char>) -> bool {
        name == self.observer_name@
    }

    open spec fn observed(&self) -> Option<Seq<u8>> {
        match self.last_run {
            Some(v) => Some(v@),
            None => None,
        }
    }

    fn pre_exec(&mut self, input: &GeneralizedInput) -> (r: Result<(), Error>) {
        Ok(())
    }

    fn run_target(&mut self, input: &GeneralizedInput) -> (r: Result<(), Error>) {
        self.last_run = Some(clone_vec(&input.bytes));
        if self.runs < u64::MAX {
            self.runs = self.runs + 1;
        }
        Ok(())
    }

    fn post_exec(&mut self, input: &GeneralizedInput) -> (r: Result<(), Error>) {
        Ok(())
    }

    fn how_many_set(&self, name: &String, novelties: &Vec<usize>) -> (r: Option<usize>) {
        if !(*name == self.observer_name) {
            return None;
        }
        match &self.last_run {
            None => Some(0),
            Some(v) => {
                let long_enough = v.len() >= MIN;
                proof {
                    if long_enough {
                        assert forall|i: int| 0 <= i < novelties@.len() implies Self::covers(
                            v@,
                            #[trigger] novelties@[i],
                        ) by {}
                    } else if novelties@.len() > 0 {
                        assert(!Self::covers(v@, novelties@[0]));
                    }
                }
                if long_enough {
                    Some(novelties.len())
                } else {
                    Some(0)
                }
            },
        }
    }
}

impl<const MIN: usize> MapObserver for MinLenExecutor<MIN> {
    open spec fn name_spec(&self) -> Seq<char> {
        self.observer_name@
    }

    fn name(&self) -> (r: &str) {
        self.observer_name.as_str()
    }
}

} // verus!
