use vstd::prelude::*;

verus! {

/// The tap that a delay reads in a window of `len` samples, oldest first: a
/// delay is capped at `len - 1`; a delay of `d > 0` reads the sample pushed
/// `d` pushes ago, and a delay of 0 the oldest sample, pushed `len` pushes ago.
pub open spec fn delay_tap(len: nat, delay: nat) -> int {
    let d = if delay < len - 1 {
        delay
    } else {
        (len - 1) as nat
    };
    if d == 0 {
        0
    } else {
        len - d
    }
}

/// The window after pushing `inputs`: as long as before, the oldest samples
/// dropped.
pub open spec fn after_pushes<T>(window: Seq<T>, inputs: Seq<T>) -> Seq<T> {
    (window + inputs).skip(inputs.len() as int)
}

/// A ring buffer of the last samples pushed, read back at a chosen delay.
pub struct DelayLine<T> {
    buffer: Vec<T>,
    write: usize,
    silence: T,
}

impl<T> DelayLine<T> {
    /// The buffer is never empty and the write position lies inside it.
    pub closed spec fn wf(&self) -> bool {
        &&& self.buffer.len() >= 1
        &&& self.write < self.buffer.len()
    }

    /// The samples held, oldest first; the next push replaces the first.
    pub closed spec fn window(&self) -> Seq<T> {
        let len = self.buffer.len() as int;
        Seq::new(
            self.buffer.len() as nat,
            |j: int|
                if self.write + j < len {
                    self.buffer@[self.write + j]
                } else {
                    self.buffer@[self.write + j - len]
                },
        )
    }

    /// The value that fills the line when it is created, resized or cleared.
    pub closed spec fn silence(&self) -> T {
        self.silence
    }
}

impl<T: Copy> DelayLine<T> {
    /// A line of one sample, holding `silence`.
    pub fn new(silence: T) -> (line: Self)
        ensures
            line.wf(),
            line.window() == seq![silence],
            line.silence() == silence,
    {
        let mut buffer: Vec<T> = Vec::new();
        buffer.push(silence);
        let line = DelayLine { buffer, write: 0, silence };
        assert(line.window() =~= seq![silence]);
        line
    }

    /// Makes room for `samples` samples (at least one), all silent.
    pub fn resize(&mut self, samples: usize)
        ensures
            final(self).wf(),
            final(self).silence() == old(self).silence(),
            final(self).window() == Seq::new(
                if samples == 0 {
                    1nat
                } else {
                    samples as nat
                },
                |_j: int| old(self).silence(),
            ),
    {
        let target: usize = if samples == 0 {
            1
        } else {
            samples
        };
        self.buffer.clear();
        while self.buffer.len() < target
            invariant
                self.buffer.len() <= target,
                self.silence == old(self).silence,
                forall|j: int| 0 <= j < self.buffer.len() ==> self.buffer@[j] == self.silence,
            decreases target - self.buffer.len(),
        {
            let s = self.silence;
            self.buffer.push(s);
        }
        self.write = 0;
        assert(self.window() =~= Seq::new(target as nat, |_j: int| old(self).silence()));
    }

    /// Silences every sample and restarts writing at the front.
    pub fn clear(&mut self)
        requires
            old(self).wf(),
        ensures
            final(self).wf(),
            final(self).silence() == old(self).silence(),
            final(self).window() == Seq::new(old(self).window().len(), |_j: int| old(self).silence()),
    {
        let mut i: usize = 0;
        let n = self.buffer.len();
        while i < n
            invariant
                n == self.buffer.len(),
                n >= 1,
                0 <= i <= n,
                self.silence == old(self).silence,
                forall|j: int| 0 <= j < i ==> self.buffer@[j] == self.silence,
            decreases n - i,
        {
            let s = self.silence;
            self.buffer.set(i, s);
            i += 1;
        }
        self.write = 0;
        assert(self.window() =~= Seq::new(old(self).window().len(), |_j: int| old(self).silence()));
    }

    /// Reads the sample `delay_samples` pushes back (see `delay_tap`), then
    /// pushes `input`.
    pub fn push_read(&mut self, input: T, delay_samples: usize) -> (output: T)
        requires
            old(self).wf(),
        ensures
            final(self).wf(),
            final(self).silence() == old(self).silence(),
            output == old(self).window()[delay_tap(old(self).window().len(), delay_samples as nat)],
            final(self).window() == after_pushes(old(self).window(), seq![input]),
    {
        let len = self.buffer.len();
        let delay = if delay_samples < len - 1 {
            delay_samples
        } else {
            len - 1
        };
        let read = if self.write >= delay {
            self.write - delay
        } else {
            self.write + (len - delay)
        };
        let output = self.buffer[read];
        self.buffer.set(self.write, input);
        self.write = if self.write + 1 == len {
            0
        } else {
            self.write + 1
        };
        assert(self.window() =~= after_pushes(old(self).window(), seq![input]));
        output
    }
}

/// Pushing two runs of samples one after the other is pushing them together.
pub proof fn lemma_after_pushes_compose<T>(window: Seq<T>, first: Seq<T>, second: Seq<T>)
    requires
        first.len() <= window.len(),
        second.len() <= window.len(),
    ensures
        after_pushes(after_pushes(window, first), second) == after_pushes(window, first + second),
{
    assert(after_pushes(after_pushes(window, first), second) =~= after_pushes(window, first + second));
}

/// A delay line echoes: a sample pushed and then followed by `later` more
/// pushes is read back by a delay of `later.len() + 1`, as long as that delay
/// is shorter than the line.
pub proof fn lemma_delay_echo<T>(window: Seq<T>, sample: T, later: Seq<T>)
    requires
        later.len() + 2 <= window.len(),
    ensures
        after_pushes(window, seq![sample] + later)[delay_tap(window.len(), later.len() + 1)] == sample,
{
    let w = after_pushes(window, seq![sample] + later);
    let n = window.len() as int;
    let k = later.len() as int;
    assert(delay_tap(window.len(), (k + 1) as nat) == n - k - 1);
    assert(w[n - k - 1] == (window + (seq![sample] + later))[n]);
}

} // verus!
