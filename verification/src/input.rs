//! The query/navigation source: translates physical key presses into abstract
//! actions, applies them to the query editor, republishes editor snapshots,
//! and debounces the query changes that trigger a reindex.

use vstd::prelude::*;
use crate::types::Action;
use crate::types::KeyPress;
use crate::types::Movement;
use crate::types::UIStuff;

verus! {

/// The debounce window in milliseconds: a query change is forwarded to the
/// indexer only when at least this much time has passed since the last
/// forwarded change.
pub const DEBOUNCE_MS: u64 = 100;

/// The fixed translation table from a physical key press to an abstract
/// editor action.
pub open spec fn action_of(key: KeyPress, ctrl: bool) -> Action {
    match key {
        KeyPress::Backspace => Action::BackSpace,
        KeyPress::Enter => Action::Select,
        KeyPress::Esc => Action::Exit,
        KeyPress::Up => Action::MoveUp,
        KeyPress::Down => Action::MoveDown,
        KeyPress::Left => Action::MoveLeft,
        KeyPress::Right => Action::MoveRight,
        KeyPress::Home => Action::MoveBegin,
        KeyPress::End => Action::MoveEnd,
        KeyPress::Char(c) => if ctrl {
            if c == 'u' {
                Action::ClearAll
            } else if c == 'c' {
                Action::Exit
            } else if c == 'e' {
                Action::MoveEnd
            } else if c == 'a' {
                Action::MoveBegin
            } else if c == 'p' {
                Action::MoveUp
            } else if c == 'n' {
                Action::MoveDown
            } else if c == 'b' {
                Action::MoveLeft
            } else if c == 'f' {
                Action::MoveRight
            } else {
                Action::Key(c)
            }
        } else {
            Action::Key(c)
        },
        KeyPress::Other => Action::Other,
    }
}

/// Translates one physical key press into its abstract action.
pub fn parse_action(key: KeyPress, ctrl: bool) -> (a: Action)
    ensures
        a == action_of(key, ctrl),
{
    match key {
        KeyPress::Backspace => Action::BackSpace,
        KeyPress::Enter => Action::Select,
        KeyPress::Esc => Action::Exit,
        KeyPress::Up => Action::MoveUp,
        KeyPress::Down => Action::MoveDown,
        KeyPress::Left => Action::MoveLeft,
        KeyPress::Right => Action::MoveRight,
        KeyPress::Home => Action::MoveBegin,
        KeyPress::End => Action::MoveEnd,
        KeyPress::Char(c) => if ctrl {
            if c == 'u' {
                Action::ClearAll
            } else if c == 'c' {
                Action::Exit
            } else if c == 'e' {
                Action::MoveEnd
            } else if c == 'a' {
                Action::MoveBegin
            } else if c == 'p' {
                Action::MoveUp
            } else if c == 'n' {
                Action::MoveDown
            } else if c == 'b' {
                Action::MoveLeft
            } else if c == 'f' {
                Action::MoveRight
            } else {
                Action::Key(c)
            }
        } else {
            Action::Key(c)
        },
        KeyPress::Other => Action::Other,
    }
}

/// What an action does to the query text and the cursor offset: edits stay in
/// bounds and cursor moves clamp to the valid range `0 ..= text.len()`.
pub open spec fn apply_edit(text: Seq<char>, cursor: int, a: Action) -> (Seq<char>, int) {
    match a {
        Action::Key(c) => (text.insert(cursor, c), cursor + 1),
        Action::BackSpace => if cursor > 0 {
            (text.remove(cursor - 1), cursor - 1)
        } else {
            (text, cursor)
        },
        Action::ClearAll => (Seq::empty(), 0int),
        Action::MoveBegin => (text, 0int),
        Action::MoveEnd => (text, text.len() as int),
        Action::MoveLeft => (text, if cursor > 0 {
            cursor - 1
        } else {
            0int
        }),
        Action::MoveRight => (text, if cursor < text.len() {
            cursor + 1
        } else {
            cursor
        }),
        _ => (text, cursor),
    }
}

/// The navigation event an action emits, if any: these bypass the debounce
/// and are queued unconditionally.
pub open spec fn movement_of(a: Action) -> Option<Movement> {
    match a {
        Action::Select => Some(Movement::Enter),
        Action::MoveUp => Some(Movement::Up),
        Action::MoveDown => Some(Movement::Down),
        _ => None,
    }
}

/// Milliseconds elapsed from `last` to `now`, clamped below at zero.
pub open spec fn elapsed_ms(last: u64, now: u64) -> int {
    if now >= last {
        now - last
    } else {
        0int
    }
}

/// The mathematical state of the input loop.
pub ghost struct InputModel {
    pub text: Seq<char>,
    pub cursor: int,
    pub last_text: Seq<char>,
    pub last_cursor: int,
    pub last_sent: u64,
}

/// One step of the input loop publishes a snapshot exactly when the editor
/// now differs from the last published snapshot.
pub open spec fn model_publishes(m: InputModel, a: Action) -> bool {
    let new = apply_edit(m.text, m.cursor, a);
    !(new.0 == m.last_text && new.1 == m.last_cursor)
}

/// One step forwards a query change to the indexer exactly when the text
/// differs from the last published text and the debounce window has passed
/// since the last forwarded change.
pub open spec fn model_forwards(m: InputModel, a: Action, now: u64) -> bool {
    let new = apply_edit(m.text, m.cursor, a);
    new.0 != m.last_text && elapsed_ms(m.last_sent, now) > DEBOUNCE_MS
}

/// The state after one step of the input loop.
pub open spec fn model_step(m: InputModel, a: Action, now: u64) -> InputModel {
    let new = apply_edit(m.text, m.cursor, a);
    InputModel {
        text: new.0,
        cursor: new.1,
        last_text: if model_publishes(m, a) {
            new.0
        } else {
            m.last_text
        },
        last_cursor: if model_publishes(m, a) {
            new.1
        } else {
            m.last_cursor
        },
        last_sent: if model_forwards(m, a, now) {
            now
        } else {
            m.last_sent
        },
    }
}

/// The live state of the input loop: the query editor, the last published
/// snapshot, and when a query change was last forwarded.
pub struct InputState {
    pub text: Vec<char>,
    pub cursor: usize,
    pub last_text: Vec<char>,
    pub last_cursor: usize,
    pub last_sent: u64,
}

/// What one step of the input loop emits.
pub struct StepOut {
    pub movement: Option<Movement>,
    pub exit: bool,
    pub snapshot: Option<UIStuff>,
    pub query_change: Option<String>,
}

impl InputState {
    /// The cursor stays inside the text.
    pub open spec fn wf(self) -> bool {
        &&& self.cursor <= self.text@.len()
        &&& self.last_cursor <= self.last_text@.len()
    }

    /// The mathematical image of the state.
    pub open spec fn model(self) -> InputModel {
        InputModel {
            text: self.text@,
            cursor: self.cursor as int,
            last_text: self.last_text@,
            last_cursor: self.last_cursor as int,
            last_sent: self.last_sent,
        }
    }

    /// A fresh input loop: empty query, cursor at the start, nothing
    /// published or forwarded more recently than `now_ms`.
    pub fn new(now_ms: u64) -> (st: Self)
        ensures
            st.wf(),
            st.model() == (InputModel {
                text: Seq::<char>::empty(),
                cursor: 0int,
                last_text: Seq::<char>::empty(),
                last_cursor: 0int,
                last_sent: now_ms,
            }),
    {
        let st = InputState {
            text: Vec::new(),
            cursor: 0,
            last_text: Vec::new(),
            last_cursor: 0,
            last_sent: now_ms,
        };
        st
    }
}

/// Whether two character vectors hold the same text.
fn chars_eq(a: &Vec<char>, b: &Vec<char>) -> (r: bool)
    ensures
        r == (a@ == b@),
{
    if a.len() != b.len() {
        return false;
    }
    let mut i: usize = 0;
    while i < a.len()
        invariant
            a@.len() == b@.len(),
            i <= a@.len(),
            forall|k: int| 0 <= k < i ==> a@[k] == b@[k],
        decreases a@.len() - i,
    {
        if a[i] != b[i] {
            return false;
        }
        i = i + 1;
    }
    proof {
        assert(a@ =~= b@);
    }
    true
}

/// Relies on `String::push`: appends exactly the given character to the
/// string.
#[verifier::external_body]
fn string_push(s: &mut String, c: char)
    ensures
        final(s)@ == old(s)@.push(c),
{
    s.push(c);
}

/// Builds an owned string out of a character vector.
pub fn chars_to_string(v: &Vec<char>) -> (s: String)
    ensures
        s@ == v@,
{
    let mut s = String::new();
    let mut i: usize = 0;
    while i < v.len()
        invariant
            i <= v@.len(),
            s@ == v@.take(i as int),
        decreases v@.len() - i,
    {
        proof {
            assert(v@.take(i as int).push(v@[i as int]) =~= v@.take(i + 1int));
        }
        string_push(&mut s, v[i]);
        i = i + 1;
    }
    proof {
        assert(v@.take(v@.len() as int) =~= v@);
    }
    s
}

/// One step of the input loop: applies the action to the editor, emits any
/// navigation event unconditionally, republishes a snapshot whenever the
/// editor changed, and forwards the query text to the indexer only past the
/// debounce window.
pub fn input_step(st: &mut InputState, a: Action, now_ms: u64) -> (out: StepOut)
    requires
        old(st).wf(),
        a matches Action::Key(_) ==> old(st).text@.len() < usize::MAX,
    ensures
        final(st).wf(),
        final(st).model() == model_step(old(st).model(), a, now_ms),
        out.movement == movement_of(a),
        out.exit == (a is Exit),
        (out.snapshot is Some) == model_publishes(old(st).model(), a),
        out.snapshot matches Some(ui) ==> {
            &&& ui.input@ == apply_edit(old(st).text@, old(st).cursor as int, a).0
            &&& ui.cursor_position == apply_edit(old(st).text@, old(st).cursor as int, a).1
            &&& !ui.enter
        },
        (out.query_change is Some) == model_forwards(old(st).model(), a, now_ms),
        out.query_change matches Some(s) ==> s@ == apply_edit(
            old(st).text@,
            old(st).cursor as int,
            a,
        ).0,
{
    let mut movement: Option<Movement> = None;
    let mut exit = false;
    match a {
        Action::Key(c) => {
            st.text.insert(st.cursor, c);
            st.cursor = st.cursor + 1;
        },
        Action::BackSpace => {
            if st.cursor > 0 {
                st.text.remove(st.cursor - 1);
                st.cursor = st.cursor - 1;
            }
        },
        Action::ClearAll => {
            st.text.clear();
            st.cursor = 0;
        },
        Action::MoveBegin => {
            st.cursor = 0;
        },
        Action::MoveEnd => {
            st.cursor = st.text.len();
        },
        Action::MoveLeft => {
            if st.cursor > 0 {
                st.cursor = st.cursor - 1;
            }
        },
        Action::MoveRight => {
            if st.cursor < st.text.len() {
                st.cursor = st.cursor + 1;
            }
        },
        Action::Select => {
            movement = Some(Movement::Enter);
        },
        Action::MoveUp => {
            movement = Some(Movement::Up);
        },
        Action::MoveDown => {
            movement = Some(Movement::Down);
        },
        Action::Exit => {
            exit = true;
        },
        Action::Other => {},
    }
    let changed = !(chars_eq(&st.text, &st.last_text) && st.cursor == st.last_cursor);
    let mut snapshot: Option<UIStuff> = None;
    let mut query_change: Option<String> = None;
    if changed {
        let text_changed = !chars_eq(&st.text, &st.last_text);
        let waited = if now_ms >= st.last_sent {
            now_ms - st.last_sent
        } else {
            0
        };
        if text_changed && waited > DEBOUNCE_MS {
            query_change = Some(chars_to_string(&st.text));
            st.last_sent = now_ms;
        }
        snapshot = Some(
            UIStuff {
                input: chars_to_string(&st.text),
                cursor_position: st.cursor,
                enter: false,
            },
        );
        let copy = clone_chars(&st.text);
        st.last_text = copy;
        st.last_cursor = st.cursor;
    }
    StepOut { movement, exit, snapshot, query_change }
}

/// Copies a character vector.
fn clone_chars(v: &Vec<char>) -> (r: Vec<char>)
    ensures
        r@ == v@,
{
    let r = v.clone();
    proof {
        assert(r@ =~= v@);
    }
    r
}

/// Debounce law, one half: while every step of a run happens within the
/// debounce window measured from the last forwarded change, no step of the
/// run forwards a query change.
pub open spec fn run_model(m: InputModel, steps: Seq<(Action, u64)>) -> InputModel
    decreases steps.len(),
{
    if steps.len() == 0 {
        m
    } else {
        run_model(model_step(m, steps.first().0, steps.first().1), steps.drop_first())
    }
}

/// How many steps of a run forward a query change to the indexer.
pub open spec fn count_forwards(m: InputModel, steps: Seq<(Action, u64)>) -> int
    decreases steps.len(),
{
    if steps.len() == 0 {
        0int
    } else {
        (if model_forwards(m, steps.first().0, steps.first().1) {
            1int
        } else {
            0int
        }) + count_forwards(model_step(m, steps.first().0, steps.first().1), steps.drop_first())
    }
}

/// Debounce law: a run of edits whose times all fall within the debounce
/// window after the last forwarded change forwards nothing to the indexer.
pub proof fn lemma_debounce_window(m: InputModel, steps: Seq<(Action, u64)>)
    requires
        forall|k: int| 0 <= k < steps.len() ==> (#[trigger] steps[k]).1 <= m.last_sent + DEBOUNCE_MS,
    ensures
        count_forwards(m, steps) == 0,
    decreases steps.len(),
{
    if steps.len() > 0 {
        let a = steps.first().0;
        let t = steps.first().1;
        assert(steps[0].1 <= m.last_sent + DEBOUNCE_MS);
        assert(!model_forwards(m, a, t));
        let m2 = model_step(m, a, t);
        assert(m2.last_sent == m.last_sent);
        assert(forall|k: int|
            0 <= k < steps.drop_first().len() ==> (#[trigger] steps.drop_first()[k]).1
                <= m2.last_sent + DEBOUNCE_MS);
        lemma_debounce_window(m2, steps.drop_first());
    }
}

/// Debounce law: after a step that forwards a query change at time `now`,
/// any further edits within the debounce window forward nothing, so a rapid
/// burst of edits forwards at most one query change.
pub proof fn lemma_at_most_one_forward(
    m: InputModel,
    a: Action,
    now: u64,
    steps: Seq<(Action, u64)>,
)
    requires
        model_forwards(m, a, now),
        forall|k: int| 0 <= k < steps.len() ==> (#[trigger] steps[k]).1 <= now + DEBOUNCE_MS,
    ensures
        count_forwards(model_step(m, a, now), steps) == 0,
{
    lemma_debounce_window(model_step(m, a, now), steps);
}

/// Snapshot law: an action that leaves the editor different from the last
/// published snapshot always republishes one, whether or not the query change
/// was forwarded.
pub proof fn lemma_edit_publishes(m: InputModel, a: Action, now: u64)
    requires
        apply_edit(m.text, m.cursor, a).0 != m.last_text || apply_edit(m.text, m.cursor, a).1
            != m.last_cursor,
    ensures
        model_publishes(m, a),
{
}

} // verus!
