use vstd::prelude::*;

verus! {

/// Collects the lines that the program prints (through `prn` and
/// `println`); the hosting shell drains and displays them.
pub struct MalLogger {
    pub lines: Vec<String>,
}

/// Model of the collected lines.
pub open spec fn view_lines(s: Seq<String>) -> Seq<Seq<char>>
    decreases s,
{
    if s.len() == 0 {
        Seq::empty()
    } else {
        seq![s[0]@] + view_lines(s.subrange(1, s.len() as int))
    }
}

/// `view_lines` maps each line to its characters, index by index.
pub broadcast proof fn lemma_view_lines(s: Seq<String>)
    ensures
        (#[trigger] view_lines(s)).len() == s.len(),
        forall|i: int| 0 <= i < s.len() ==> view_lines(s)[i] == s[i]@,
    decreases s.len(),
{
    if s.len() > 0 {
        lemma_view_lines(s.subrange(1, s.len() as int));
        assert forall|i: int| 0 <= i < s.len() implies view_lines(s)[i] == s[i]@ by {
            if i > 0 {
                assert(s.subrange(1, s.len() as int)[i - 1] == s[i]);
            }
        }
    }
}

impl View for MalLogger {
    type V = Seq<Seq<char>>;

    open spec fn view(&self) -> Seq<Seq<char>> {
        view_lines(self.lines@)
    }
}

impl MalLogger {
    /// Records one printed line.
    pub fn log(&mut self, line: String)
        ensures
            final(self)@ == old(self)@.push(line@),
    {
        proof {
            lemma_view_lines(self.lines@.push(line));
            lemma_view_lines(self.lines@);
        }
        self.lines.push(line);
        proof {
            assert(self@ =~= old(self)@.push(line@));
        }
    }

    /// Hands the collected lines out and leaves the log empty.
    pub fn take_lines(&mut self) -> (r: Vec<String>)
        ensures
            final(self)@ == Seq::<Seq<char>>::empty(),
            view_lines(r@) == old(self)@,
    {
        let mut r: Vec<String> = Vec::new();
        core::mem::swap(&mut r, &mut self.lines);
        r
    }

    /// Nothing is buffered anywhere else, so there is nothing to do.
    pub fn flush(&self) {
    }
}

/// A fresh, empty line log.
pub fn init() -> (r: MalLogger)
    ensures
        r@ == Seq::<Seq<char>>::empty(),
{
    MalLogger { lines: Vec::new() }
}

} // verus!
