use vstd::prelude::*;

use crate::peaks::{is_peak_ranking, peak_bins};

verus! {

/// What a session holds: its samples and, once a transform has run, the
/// spectrum with one power key per bin.
pub struct SessionView<S, C> {
    pub samples: Seq<S>,
    pub spectrum: Option<(Seq<C>, Seq<u32>)>,
}

impl<S, C> SessionView<S, C> {
    pub open spec fn fresh(samples: Seq<S>) -> Self {
        SessionView { samples, spectrum: None }
    }

    /// Peaks and phases can be reported: a spectrum is held.
    pub open spec fn has_result(self) -> bool {
        self.spectrum is Some
    }
}

/// An analysis session over one signal. It holds at most one spectrum, the
/// one of the latest transform; each transform replaces the one before.
///
/// The power key of a bin orders bins as their squared magnitudes do.
pub struct Session<S, C> {
    samples: Vec<S>,
    spectrum: Option<(Vec<C>, Vec<u32>)>,
}

impl<S, C> View for Session<S, C> {
    type V = SessionView<S, C>;

    closed spec fn view(&self) -> SessionView<S, C> {
        SessionView {
            samples: self.samples@,
            spectrum: match self.spectrum {
                Some((v, p)) => Some((v@, p@)),
                None => None,
            },
        }
    }
}

impl<S, C> Session<S, C> {
    /// A spectrum held has one power key per bin.
    pub open spec fn wf(&self) -> bool {
        match self@.spectrum {
            Some((v, p)) => v.len() == p.len(),
            None => true,
        }
    }

    pub fn new(samples: Vec<S>) -> (r: Self)
        ensures
            r@ == SessionView::<S, C>::fresh(samples@),
            r.wf(),
    {
        Session { samples, spectrum: None }
    }

    pub fn samples(&self) -> (r: &Vec<S>)
        ensures
            r@ == self@.samples,
    {
        &self.samples
    }

    /// Replaces the spectrum held, if any, by `values` with their power keys.
    pub fn store_spectrum(&mut self, values: Vec<C>, power: Vec<u32>)
        requires
            values@.len() == power@.len(),
        ensures
            final(self)@ == (SessionView {
                samples: old(self)@.samples,
                spectrum: Some((values@, power@)),
            }),
            final(self).wf(),
    {
        self.spectrum = Some((values, power));
    }

    /// The spectrum of the latest transform, if one has run.
    pub fn spectrum(&self) -> (r: Option<&Vec<C>>)
        ensures
            match r {
                Some(v) => self@.spectrum is Some && v@ == self@.spectrum->Some_0.0,
                None => self@.spectrum is None,
            },
    {
        match &self.spectrum {
            Some((v, _)) => Some(v),
            None => None,
        }
    }

    /// The `k` strongest bins of the lower half of the spectrum held,
    /// strongest first; nothing while no transform has run.
    pub fn peak_bins(&self, k: usize) -> (r: Option<Vec<usize>>)
        ensures
            r is Some <==> self@.has_result(),
            match r {
                Some(bins) => is_peak_ranking(self@.spectrum->Some_0.1, k as nat, bins@),
                None => true,
            },
    {
        match &self.spectrum {
            Some((_, power)) => Some(peak_bins(power, k)),
            None => None,
        }
    }
}

impl<S: Copy, C> Session<S, C> {
    /// The samples that a frame of `size` samples takes in: the first
    /// `size`, or all of them if the signal is shorter.
    pub fn leading(&self, size: usize) -> (r: Vec<S>)
        ensures
            r@ == self@.samples.take(
                if size <= self@.samples.len() {
                    size as int
                } else {
                    self@.samples.len() as int
                },
            ),
    {
        let n = crate::layout::windowed_len(size, self.samples.len());
        let mut r: Vec<S> = Vec::new();
        let mut i: usize = 0;
        while i < n
            invariant
                i <= n,
                n <= self.samples@.len(),
                n == if size <= self.samples@.len() {
                    size as int
                } else {
                    self.samples@.len() as int
                },
                r@ == self.samples@.take(i as int),
            decreases n - i,
        {
            r.push(self.samples[i]);
            i = i + 1;
            assert(r@ =~= self.samples@.take(i as int));
        }
        r
    }
}

/// A session that has run no transform reports neither peaks nor phases.
pub proof fn lemma_fresh_session_reports_nothing<S, C>(samples: Seq<S>)
    ensures
        !SessionView::<S, C>::fresh(samples).has_result(),
{
}

} // verus!
