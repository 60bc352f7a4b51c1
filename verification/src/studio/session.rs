//! Studio session bookkeeping: the console scrollback, the play/pause/stop
//! state machine, and the title shown in the menu bar.

use vstd::prelude::*;

verus! {

/// Fires whenever a view should re-render.
pub struct StateChanged;

#[derive(Debug, Clone, Copy, PartialEq, Eq, Structural)]
pub enum PlayState {
    Stopped,
    Playing,
    Paused,
}

/// Lines of console scrollback kept; older lines are dropped first.
pub const CONSOLE_LIMIT: usize = 500;

/// The scrollback after appending `line`: the newest `CONSOLE_LIMIT` lines
/// of `log` with `line` appended, `line` itself counted among them.
pub open spec fn logged(log: Seq<String>, line: String) -> Seq<String> {
    let all = log.push(line);
    if all.len() > CONSOLE_LIMIT {
        all.subrange(all.len() - CONSOLE_LIMIT, all.len() as int)
    } else {
        all
    }
}

/// The scrollback never grows past [`CONSOLE_LIMIT`] lines, and the line
/// just logged is always its last.
pub proof fn lemma_log_bounded(log: Seq<String>, line: String)
    requires
        log.len() <= CONSOLE_LIMIT,
    ensures
        logged(log, line).len() <= CONSOLE_LIMIT,
        logged(log, line).len() > 0,
        logged(log, line).last() == line,
{
}

/// Append a line to the console, dropping the oldest lines beyond
/// [`CONSOLE_LIMIT`].
pub fn push_log(console: &mut Vec<String>, line: String)
    ensures
        final(console)@ == logged(old(console)@, line),
{
    console.push(line);
    if console.len() > CONSOLE_LIMIT {
        let drop = console.len() - CONSOLE_LIMIT;
        let ghost all = console@;
        let mut kept: Vec<String> = Vec::new();
        let mut k: usize = drop;
        while k < console.len()
            invariant
                console@ == all,
                drop <= k <= all.len(),
                drop == all.len() - CONSOLE_LIMIT,
                kept@ == all.subrange(drop as int, k as int),
            decreases all.len() - k,
        {
            let line_k = console[k].clone();
            kept.push(line_k);
            k = k + 1;
            proof {
                assert(kept@ =~= all.subrange(drop as int, k as int));
            }
        }
        *console = kept;
    }
}

/// Effect of the pause button: Playing pauses, Paused resumes, Stopped is
/// unaffected. Returns the new state and the console line to log, if any.
pub fn pause_toggle(state: PlayState) -> (r: (PlayState, Option<&'static str>))
    ensures
        state == PlayState::Playing ==> r.0 == PlayState::Paused && r.1 == Some("Paused."),
        state == PlayState::Paused ==> r.0 == PlayState::Playing && r.1 == Some("Resumed."),
        state == PlayState::Stopped ==> r.0 == PlayState::Stopped && r.1.is_none(),
{
    match state {
        PlayState::Playing => (PlayState::Paused, Some("Paused.")),
        PlayState::Paused => (PlayState::Playing, Some("Resumed.")),
        PlayState::Stopped => (PlayState::Stopped, None),
    }
}

/// Title shown for a scene: its name, with ` *` appended while the scene
/// has entities but has never been saved to a file.
pub open spec fn title_of(name: Seq<char>, has_path: bool, entity_count: nat) -> Seq<char> {
    if !has_path && entity_count > 0 {
        name + " *"@
    } else {
        name
    }
}

pub fn scene_title(name: &str, has_path: bool, entity_count: usize) -> (r: String)
    ensures
        r@ == title_of(name@, has_path, entity_count as nat),
{
    let mut t = String::new();
    t.append(name);
    if !has_path && entity_count > 0 {
        t.append(" *");
    }
    proof {
        assert(Seq::<char>::empty() + name@ =~= name@);
    }
    t
}

} // verus!
