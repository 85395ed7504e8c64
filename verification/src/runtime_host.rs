//! What a program needs from the world around it.
use vstd::prelude::*;
use crate::compiler::{contents, reports};
use crate::diagnostic::{Diagnostic, Report};
use crate::machine::ArithmeticOp;

verus! {

/// Takes what a program prints and what is reported about it. A host says by
/// `printed` and `reported` what it was given. A host that leaves them as they
/// are here, as one does that is not verified, cannot meet what `output` and
/// `diagnostic` promise: it lies outside what is proved.
pub trait RuntimeHost {
    /// What was printed, in order.
    open spec fn printed(&self) -> Seq<Seq<char>> {
        arbitrary()
    }

    /// What was reported, in order.
    open spec fn reported(&self) -> Seq<Report> {
        arbitrary()
    }

    fn output(&mut self, text: String)
        ensures
            final(self).printed() == old(self).printed().push(text@),
            final(self).reported() == old(self).reported(),
    ;

    fn diagnostic(&mut self, value: Diagnostic)
        ensures
            final(self).printed() == old(self).printed(),
            final(self).reported() == old(self).reported().push(value@),
    ;
}

/// What a host was given.
pub ghost struct Record {
    pub printed: Seq<Seq<char>>,
    pub reported: Seq<Report>,
}

pub open spec fn record_of<H: RuntimeHost>(host: H) -> Record {
    Record { printed: host.printed(), reported: host.reported() }
}

impl Record {
    /// More was printed, and more was reported.
    pub open spec fn with(self, lines: Seq<Seq<char>>, reports: Seq<Report>) -> Record {
        Record { printed: self.printed + lines, reported: self.reported + reports }
    }

    /// More at once is more by and by.
    pub proof fn lemma_with_twice(
        self,
        a: Seq<Seq<char>>,
        x: Seq<Report>,
        b: Seq<Seq<char>>,
        y: Seq<Report>,
    )
        ensures
            self.with(a, x).with(b, y) == self.with(a + b, x + y),
    {
        assert(self.printed + a + b =~= self.printed + (a + b));
        assert(self.reported + x + y =~= self.reported + (x + y));
    }

    pub proof fn lemma_with_nothing(self)
        ensures
            self.with(Seq::empty(), Seq::empty()) == self,
    {
        assert(self.printed + Seq::<Seq<char>>::empty() =~= self.printed);
        assert(self.reported + Seq::<Report>::empty() =~= self.reported);
    }
}

/// Floating-point numbers and the time. Numbers are the bits of IEEE 754
/// double-precision values.
pub trait Arithmetic {
    /// The number that a number token spells.
    fn parse(&self, lexeme: &str) -> u64;

    fn compute(&self, op: ArithmeticOp, left: u64, right: u64) -> u64;

    /// How a number is shown.
    fn text(&self, bits: u64) -> String;

    /// The seconds since the start of 1970.
    fn clock(&self) -> u64;
}

/// A host that keeps everything it is given, in order.
pub struct RecordingHost {
    output: Vec<String>,
    diagnostics: Vec<Diagnostic>,
}

impl RecordingHost {
    pub fn output(&self) -> (texts: &[String])
        ensures
            contents(texts@) == self.printed(),
    {
        self.output.as_slice()
    }

    pub fn diagnostics(&self) -> (diagnostics: &[Diagnostic])
        ensures
            reports(diagnostics@) == self.reported(),
    {
        self.diagnostics.as_slice()
    }
}

impl Default for RecordingHost {
    fn default() -> (host: Self)
        ensures
            host.printed() == Seq::<Seq<char>>::empty(),
            host.reported() == Seq::<Report>::empty(),
    {
        let host = RecordingHost { output: Vec::new(), diagnostics: Vec::new() };
        assert(host.printed() =~= Seq::<Seq<char>>::empty());
        assert(host.reported() =~= Seq::<Report>::empty());
        host
    }
}

impl RuntimeHost for RecordingHost {
    closed spec fn printed(&self) -> Seq<Seq<char>> {
        contents(self.output@)
    }

    closed spec fn reported(&self) -> Seq<Report> {
        reports(self.diagnostics@)
    }

    fn output(&mut self, text: String) {
        self.output.push(text);
        assert(self.printed() =~= old(self).printed().push(text@));
    }

    fn diagnostic(&mut self, value: Diagnostic) {
        self.diagnostics.push(value);
        assert(self.reported() =~= old(self).reported().push(value@));
    }
}

} // verus!
