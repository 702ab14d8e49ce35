use vstd::prelude::*;

verus! {

/// The writer checks the file's length once per this many lines written.
pub const ROLL_BATCH: u64 = 100;

/// What the queue hands the writer, or what waiting on it ended with.
pub enum Event {
    /// A persisted line to append.
    Line(String),
    /// The logger asked the writer to stop.
    Shutdown,
    /// Nothing arrived within the poll interval.
    Timeout,
    /// Every producer is gone and the queue is empty.
    Disconnected,
}

/// What the writer's driver is to do next.
pub enum Action {
    /// Append `line` and a newline; when `roll_check` is set, close the file,
    /// keep only its last `roll` lines (see `retain_tail`) and reopen it for
    /// appending; then flush.
    Write { line: String, roll_check: bool },
    /// Flush what is buffered and wait again.
    Flush,
    /// Flush what is buffered and stop.
    Stop,
}

/// The texts of a sequence of strings.
pub open spec fn texts(v: Seq<String>) -> Seq<Seq<char>> {
    v.map_values(|s: String| s@)
}

/// The last `limit` lines of a file, or the whole file when it is no longer.
pub open spec fn retained(file: Seq<Seq<char>>, limit: nat) -> Seq<Seq<char>> {
    if file.len() > limit {
        file.subrange(file.len() - limit, file.len() as int)
    } else {
        file
    }
}

/// Whether the line that brings the count of written lines to `count` is
/// followed by a roll check.
pub open spec fn checks_roll(count: nat, roll: nat) -> bool {
    roll > 0 && count % (ROLL_BATCH as nat) == 0
}

/// The file that the writer leaves after it has been handed `lines`, starting
/// from an empty file.
pub open spec fn persisted(lines: Seq<Seq<char>>, roll: nat) -> Seq<Seq<char>>
    decreases lines.len(),
{
    if lines.len() == 0 {
        Seq::empty()
    } else {
        let file = persisted(lines.drop_last(), roll).push(lines.last());
        if checks_roll(lines.len(), roll) {
            retained(file, roll)
        } else {
            file
        }
    }
}

/// The file after the driver carried out `action` on `file`.
pub open spec fn after_action(file: Seq<Seq<char>>, action: Action, roll: nat) -> Seq<Seq<char>> {
    match action {
        Action::Write { line, roll_check } => {
            if roll_check {
                retained(file.push(line@), roll)
            } else {
                file.push(line@)
            }
        },
        _ => file,
    }
}

/// The writer's decisions: how many lines it has written since the last
/// roll check, and the lines it has been handed so far.
pub struct WriterState {
    roll: u64,
    pending: u64,
    received: Ghost<Seq<Seq<char>>>,
}

impl WriterState {
    pub closed spec fn roll_limit(&self) -> nat {
        self.roll as nat
    }

    /// The lines handed to the writer so far, in order.
    pub closed spec fn history(&self) -> Seq<Seq<char>> {
        self.received@
    }

    pub closed spec fn wf(&self) -> bool {
        &&& self.pending < ROLL_BATCH
        &&& self.pending as nat == self.received@.len() % (ROLL_BATCH as nat)
    }

    /// A writer that has written nothing yet, keeping at most `roll` lines
    /// (0: all of them).
    pub fn new(roll: u64) -> (r: Self)
        ensures
            r.wf(),
            r.roll_limit() == roll,
            r.history() == Seq::<Seq<char>>::empty(),
    {
        WriterState { roll, pending: 0, received: Ghost(Seq::empty()) }
    }

    /// The most lines the file keeps (0: all of them).
    pub fn roll(&self) -> (r: u64)
        ensures
            r == self.roll_limit(),
    {
        self.roll
    }

    /// Decides what to do with `event`. A line is written, and followed by a
    /// roll check on every `ROLL_BATCH`-th line when rolling is on; a timeout
    /// flushes; a shutdown or a lost queue stops the writer. Carrying out the
    /// actions keeps the file equal to `persisted` of the lines received.
    pub fn step(&mut self, event: Event) -> (a: Action)
        requires
            old(self).wf(),
        ensures
            final(self).wf(),
            final(self).roll_limit() == old(self).roll_limit(),
            match event {
                Event::Line(line) => {
                    &&& final(self).history() == old(self).history().push(line@)
                    &&& a == (Action::Write {
                        line,
                        roll_check: checks_roll(final(self).history().len(), old(self).roll_limit()),
                    })
                },
                Event::Timeout => final(self).history() == old(self).history() && a is Flush,
                _ => final(self).history() == old(self).history() && a is Stop,
            },
            after_action(persisted(old(self).history(), old(self).roll_limit()), a, old(self).roll_limit())
                == persisted(final(self).history(), old(self).roll_limit()),
    {
        match event {
            Event::Line(line) => {
                let ghost before = self.received@;
                self.received = Ghost(before.push(line@));
                let roll_check = if self.pending + 1 == ROLL_BATCH {
                    self.pending = 0;
                    self.roll > 0
                } else {
                    self.pending = self.pending + 1;
                    false
                };
                proof {
                    assert(self.received@.drop_last() =~= before);
                }
                Action::Write { line, roll_check }
            },
            Event::Timeout => Action::Flush,
            _ => Action::Stop,
        }
    }
}

/// The lines to rewrite the file with when it holds more than `limit`: its
/// last `limit` lines. `None` when the file is to stay as it is.
pub fn retain_tail(lines: Vec<String>, limit: u64) -> (r: Option<Vec<String>>)
    ensures
        r is Some <==> lines@.len() > limit,
        r is Some ==> texts(r->0@) == retained(texts(lines@), limit as nat),
{
    if lines.len() as u64 > limit {
        let mut lines = lines;
        let ghost all = lines@;
        let start: usize = lines.len() - limit as usize;
        let tail = lines.split_off(start);
        proof {
            assert(texts(tail@) =~= retained(texts(all), limit as nat));
        }
        Some(tail)
    } else {
        None
    }
}

/// A file's text: each line followed by a newline.
pub open spec fn rendered(lines: Seq<Seq<char>>) -> Seq<char>
    decreases lines.len(),
{
    if lines.len() == 0 {
        Seq::empty()
    } else {
        rendered(lines.drop_last()) + lines.last() + seq!['\n']
    }
}

/// The text to rewrite a file with, each line followed by a newline.
pub fn render_lines(lines: &Vec<String>) -> (r: String)
    ensures
        r@ == rendered(texts(lines@)),
{
    let mut out = String::new();
    let newline = "\n";
    proof {
        reveal_strlit("\n");
    }
    let mut i: usize = 0;
    while i < lines.len()
        invariant
            i <= lines@.len(),
            newline@ == seq!['\n'],
            out@ == rendered(texts(lines@.subrange(0, i as int))),
        decreases lines@.len() - i,
    {
        let ghost prev = texts(lines@.subrange(0, i as int));
        out.append(lines[i].as_str());
        out.append(newline);
        proof {
            let next = texts(lines@.subrange(0, i + 1));
            assert(next.drop_last() =~= prev);
            assert(next.last() == lines@[i as int]@);
        }
        i = i + 1;
    }
    proof {
        assert(lines@.subrange(0, lines@.len() as int) =~= lines@);
    }
    out
}

/// Lines reach the file in the order they were handed over, and what the file
/// holds is always the most recent part of them.
pub proof fn lemma_persisted_is_suffix(lines: Seq<Seq<char>>, roll: nat)
    ensures
        persisted(lines, roll).len() <= lines.len(),
        persisted(lines, roll) == lines.subrange(
            lines.len() - persisted(lines, roll).len(),
            lines.len() as int,
        ),
    decreases lines.len(),
{
    if lines.len() > 0 {
        let prev = lines.drop_last();
        lemma_persisted_is_suffix(prev, roll);
        let p = persisted(prev, roll);
        let file = p.push(lines.last());
        assert(file =~= lines.subrange(lines.len() - file.len(), lines.len() as int));
        if checks_roll(lines.len(), roll) && file.len() > roll {
            assert(retained(file, roll) =~= lines.subrange(lines.len() - roll, lines.len() as int));
        }
    } else {
        assert(lines.subrange(0, 0) =~= Seq::<Seq<char>>::empty());
    }
}

/// With rolling on, the file overshoots the limit by at most the lines written
/// since the last batch boundary (fewer than `ROLL_BATCH`), and right after a
/// boundary it holds at most `roll` lines.
pub proof fn lemma_rolling_bound(lines: Seq<Seq<char>>, roll: nat)
    requires
        roll > 0,
    ensures
        persisted(lines, roll).len() <= roll + lines.len() % (ROLL_BATCH as nat),
        persisted(lines, roll).len() < roll + ROLL_BATCH,
    decreases lines.len(),
{
    if lines.len() > 0 {
        lemma_rolling_bound(lines.drop_last(), roll);
    }
}

/// Without rolling, or before the first batch boundary, every line handed to
/// the writer is in the file, in order.
pub proof fn lemma_nothing_lost(lines: Seq<Seq<char>>, roll: nat)
    requires
        roll == 0 || lines.len() < ROLL_BATCH,
    ensures
        persisted(lines, roll) == lines,
    decreases lines.len(),
{
    if lines.len() > 0 {
        lemma_nothing_lost(lines.drop_last(), roll);
        assert(lines.drop_last().push(lines.last()) =~= lines);
    } else {
        assert(lines =~= Seq::<Seq<char>>::empty());
    }
}

} // verus!
