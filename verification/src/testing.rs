use vstd::prelude::*;

verus! {

/// A suite of move-generation test cases: a description and the cases.
pub struct TestSuite {
    pub description: String,
    pub test_cases: Vec<TestCase>,
}

/// One test case: a starting position and the moves expected from it.
pub struct TestCase {
    pub start: TestPosition,
    pub expected: Vec<TestMove>,
}

/// A described starting position, as FEN text.
pub struct TestPosition {
    pub description: String,
    pub fen: String,
}

/// One expected move and the position it leads to, as FEN text.
pub struct TestMove {
    pub mv: String,
    pub fen: String,
}

impl TestSuite {
    pub fn new(description: String, test_cases: Vec<TestCase>) -> (r: TestSuite)
        ensures
            r.description@ == description@,
            r.test_cases@ == test_cases@,
    {
        TestSuite { description, test_cases }
    }

    pub fn description(&self) -> (r: &str)
        ensures
            r@ == self.description@,
    {
        self.description.as_str()
    }

    pub fn test_cases(&self) -> (r: &[TestCase])
        ensures
            r@ == self.test_cases@,
    {
        self.test_cases.as_slice()
    }
}

impl TestCase {
    pub fn new(start: TestPosition, expected: Vec<TestMove>) -> (r: TestCase)
        ensures
            r.start == start,
            r.expected@ == expected@,
    {
        TestCase { start, expected }
    }

    pub fn start(&self) -> (r: &TestPosition)
        ensures
            r == self.start,
    {
        &self.start
    }

    pub fn moves(&self) -> (r: &[TestMove])
        ensures
            r@ == self.expected@,
    {
        self.expected.as_slice()
    }
}

impl TestPosition {
    pub fn new(description: String, fen: String) -> (r: TestPosition)
        ensures
            r.description@ == description@,
            r.fen@ == fen@,
    {
        TestPosition { description, fen }
    }

    pub fn fen(&self) -> (r: &str)
        ensures
            r@ == self.fen@,
    {
        self.fen.as_str()
    }

    pub fn description(&self) -> (r: &str)
        ensures
            r@ == self.description@,
    {
        self.description.as_str()
    }
}

impl TestMove {
    pub fn new(mv: String, fen: String) -> (r: TestMove)
        ensures
            r.mv@ == mv@,
            r.fen@ == fen@,
    {
        TestMove { mv, fen }
    }

    pub fn mv(&self) -> (r: &str)
        ensures
            r@ == self.mv@,
    {
        self.mv.as_str()
    }

    pub fn fen(&self) -> (r: &str)
        ensures
            r@ == self.fen@,
    {
        self.fen.as_str()
    }
}

/// Progress bookkeeping for a batch of spawned test runs: how many
/// were started and how many came back.
pub struct Monitor {
    pub spawned: usize,
    pub done: usize,
}

impl Monitor {
    /// Counts one finished run.
    pub fn done(&mut self)
        requires
            old(self).done < old(self).spawned,
        ensures
            final(self).done == old(self).done + 1,
            final(self).spawned == old(self).spawned,
    {
        self.done = self.done + 1;
    }

    /// Counts one started run.
    pub fn spawn(&mut self)
        requires
            old(self).spawned < usize::MAX,
        ensures
            final(self).spawned == old(self).spawned + 1,
            final(self).done == old(self).done,
    {
        self.spawned = self.spawned + 1;
    }

    /// How many started runs have not come back yet.
    pub fn remaining(&self) -> (r: usize)
        requires
            self.done <= self.spawned,
        ensures
            r == self.spawned - self.done,
    {
        self.spawned - self.done
    }

    /// How many runs came back.
    pub fn completed(&self) -> (r: usize)
        ensures
            r == self.done,
    {
        self.done
    }

    /// True when every started run has come back.
    pub fn finished(&self) -> (r: bool)
        ensures
            r == (self.spawned == self.done),
    {
        self.spawned == self.done
    }
}

impl Default for Monitor {
    /// No runs started, none finished.
    fn default() -> (r: Monitor)
        ensures
            r.spawned == 0,
            r.done == 0,
    {
        Monitor { spawned: 0, done: 0 }
    }
}

} // verus!
