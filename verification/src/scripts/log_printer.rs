//! The log printer, a development aid: which lines it shows.
use vstd::prelude::*;
use crate::scripts::util::{raw_text, to_raw_text};
use crate::text::texts;

verus! {

/// Which logs the printer shows.
#[derive(Debug, Clone, Copy, PartialEq, Eq, Structural)]
pub struct LogPrinter {
    pub fleet_logs: bool,
    pub game_logs: bool,
    pub clean_game_logs: bool,
}

impl LogPrinter {
    /// Shows fleet and game logs.
    pub fn new() -> (r: Self)
        ensures
            r == (LogPrinter { fleet_logs: true, game_logs: true, clean_game_logs: false }),
    {
        LogPrinter { fleet_logs: true, game_logs: true, clean_game_logs: false }
    }

    /// The fleet lines to show: all of them, when fleet logs are shown.
    pub fn new_fleet_logs(&self, logs: &[String]) -> (r: Option<Vec<String>>)
        ensures
            self.fleet_logs ==> (r matches Some(v) && texts(v@) == texts(logs@)),
            !self.fleet_logs ==> r is None,
    {
        if self.fleet_logs {
            Some(copy_lines(logs))
        } else {
            None
        }
    }

    /// The game lines to show, when game logs are shown: cleaned (see
    /// `raw_text`) when `clean_game_logs` is set, else as they are.
    pub fn new_game_logs(&self, logs: &[String]) -> (r: Option<Vec<String>>)
        ensures
            self.game_logs && self.clean_game_logs ==> (r matches Some(v) && texts(v@) == logs@.map_values(
                |l: String| raw_text(l@),
            )),
            self.game_logs && !self.clean_game_logs ==> (r matches Some(v) && texts(v@) == texts(logs@)),
            !self.game_logs ==> r is None,
    {
        if !self.game_logs {
            return None;
        }
        if self.clean_game_logs {
            let cleaned = to_raw_text(logs);
            assert(texts(cleaned@) =~= logs@.map_values(|l: String| raw_text(l@)));
            Some(cleaned)
        } else {
            Some(copy_lines(logs))
        }
    }
}

/// The lines, copied.
fn copy_lines(logs: &[String]) -> (r: Vec<String>)
    ensures
        texts(r@) == texts(logs@),
{
    let mut out: Vec<String> = Vec::new();
    let mut i: usize = 0;
    while i < logs.len()
        invariant
            i <= logs@.len(),
            texts(out@) == texts(logs@).take(i as int),
        decreases logs.len() - i,
    {
        let ghost prev = texts(out@);
        out.push(logs[i].as_str().to_owned());
        assert(texts(out@) =~= prev.push(logs@[i as int]@));
        assert(texts(logs@).take(i + 1) =~= texts(logs@).take(i as int).push(logs@[i as int]@));
        i = i + 1;
    }
    assert(texts(logs@).take(logs@.len() as int) =~= texts(logs@));
    out
}

} // verus!
