//! The interactive session state machine: the live entry list, filter
//! view, selection, sort key, input modes, and transient status.
//!
//! The session owns no I/O. The front end decodes key presses into
//! [`KeyInput`], hands them to [`App::handle_key`], and performs the
//! returned [`Action`] (quit, scan, send a signal), reporting outcomes
//! back through [`App::set_entries`], [`App::set_scan_error`] and
//! [`App::note_kill_result`].

use vstd::prelude::*;
use vstd::string::*;

use crate::control::{spec_termination_message, TerminationError};
use crate::models::{PortEntry, SortField};
use crate::sort::{lemma_filter_push, sort_entries, sort_spec};
use crate::text::{chars_of, contains_ci, dec_seq, has_substring, has_substring_exec, lower,
    lower_chars, lower_vec, u64_to_string};

verus! {

/// Which input mode the session is in; exactly one at a time.
#[derive(Debug, Clone, Copy, PartialEq, Eq, Structural)]
pub enum Mode {
    Normal,
    FilterEdit,
    /// A kill awaits confirmation for the entry at this filter-view
    /// position.
    ConfirmKill { target: usize },
}

/// One decoded key press, as the front end hands it in.
#[derive(Debug, Clone, Copy, PartialEq, Eq, Structural)]
pub enum KeyInput {
    Char(char),
    Up,
    Down,
    Esc,
    Enter,
    Backspace,
    CtrlC,
    CtrlQ,
    CtrlX,
    CtrlK,
    CtrlD,
    CtrlS,
    CtrlT,
    CtrlR,
    Other,
}

/// What the caller must do after a key is handled.
#[derive(Debug)]
pub enum Action {
    /// Nothing to do outside the session.
    Nothing,
    /// Leave the interactive loop.
    Quit,
    /// Run a scan with the current protocol flags and hand the result
    /// back through `set_entries` or `set_scan_error`.
    Refresh,
    /// Send the signal to the process, then report the outcome back
    /// through `note_kill_result`.
    Kill { pid: u32, forced: bool, name: String, port: u16 },
}

/// A transient status line and its creation time.
#[derive(Debug)]
pub struct StatusMessage {
    pub text: String,
    /// Milliseconds on the caller's clock when the message was set.
    pub created_ms: u64,
}

/// Whether an entry matches a filter query: the empty query matches
/// everything; otherwise the query must occur, case-insensitively, in
/// the port's decimal text, the process name, or the service label.
pub open spec fn entry_matches(e: PortEntry, q: Seq<char>) -> bool {
    ||| q.len() == 0
    ||| has_substring(dec_seq(e.port as int), lower(q))
    ||| contains_ci(e.process_name@, q)
    ||| (e.known_service matches Some(s) && contains_ci(s@, q))
}

/// The position predicate the filter view is built from.
pub open spec fn match_pred(entries: Seq<PortEntry>, q: Seq<char>) -> spec_fn(int) -> bool {
    |i: int| 0 <= i < entries.len() && entry_matches(entries[i], q)
}

/// The ordered positions of the entries matching the query.
pub open spec fn matching_indices(entries: Seq<PortEntry>, q: Seq<char>) -> Seq<int> {
    Seq::new(entries.len(), |i: int| i).filter(match_pred(entries, q))
}

/// A position vector, as mathematical integers.
pub open spec fn view_indices(filtered: Seq<usize>) -> Seq<int> {
    filtered.map_values(|u: usize| u as int)
}

/// Where the selection lands after the view is recomputed: kept when
/// still in bounds, clamped to the last position when it fell off,
/// cleared when the view is empty, and set to the first position when a
/// selection appears.
pub open spec fn spec_select(prev: Option<usize>, newlen: nat) -> Option<usize> {
    match prev {
        Some(s) => if (s as nat) < newlen {
            Some(s)
        } else if newlen > 0 {
            Some((newlen - 1) as usize)
        } else {
            None
        },
        None => if newlen > 0 {
            Some(0usize)
        } else {
            None
        },
    }
}

/// Where the mode lands after the view is recomputed: a pending
/// confirmation whose target fell out of the view is cancelled.
pub open spec fn spec_mode_after(m: Mode, newlen: nat) -> Mode {
    match m {
        Mode::ConfirmKill { target } => if (target as nat) < newlen {
            m
        } else {
            Mode::Normal
        },
        _ => m,
    }
}

/// Where the selection lands after a relative move: clamped into the
/// view, a no-op on an empty view.
pub open spec fn spec_move(sel: Option<usize>, delta: int, len: nat) -> Option<usize> {
    if len == 0 {
        sel
    } else {
        let cur = match sel {
            Some(s) => s as int,
            None => 0,
        };
        let target = cur + delta;
        let hi = len - 1;
        let clamped = if target < 0 {
            0
        } else if target > hi {
            hi
        } else {
            target
        };
        Some(clamped as usize)
    }
}

/// The status text recorded after a kill attempt.
pub open spec fn spec_kill_status(
    outcome: Result<(), TerminationError>,
    pid: u32,
    name: Seq<char>,
    port: u16,
    forced: bool,
) -> Seq<char> {
    match outcome {
        Ok(_) => (if forced {
            "Force killed "@
        } else {
            "Killed "@
        }) + name + " (PID "@ + dec_seq(pid as int) + ") on port "@ + dec_seq(port as int),
        Err(e) => "Kill failed: "@ + spec_termination_message(e, pid),
    }
}

/// A transient status is shown only within this window after creation.
pub open spec fn status_visible(st: Option<StatusMessage>, now_ms: u64) -> bool {
    st matches Some(m) && m.created_ms <= now_ms < m.created_ms + 3000
}

/// The protocol-visibility cycle: both, TCP only, UDP only, both again.
pub open spec fn spec_toggle(tcp: bool, udp: bool) -> (bool, bool) {
    if tcp && udp {
        (true, false)
    } else if tcp && !udp {
        (false, true)
    } else {
        (true, true)
    }
}

/// The interactive session state.
pub struct App {
    /// The reconciled entries of the latest successful scan, in the
    /// current sort order.
    pub entries: Vec<PortEntry>,
    /// Positions into `entries` of the current filter view, in order.
    pub filtered: Vec<usize>,
    /// Selected position in the filter view.
    pub selected: Option<usize>,
    /// The active filter query.
    pub filter_text: Vec<char>,
    pub mode: Mode,
    pub show_tcp: bool,
    pub show_udp: bool,
    pub sort_field: SortField,
    pub show_detail: bool,
    pub status: Option<StatusMessage>,
}

impl App {
    /// The session invariant: the filter view is exactly the matching
    /// positions, the selection and any pending confirmation stay inside
    /// it, and an empty view carries no selection.
    pub open spec fn inv(&self) -> bool {
        &&& view_indices(self.filtered@) == matching_indices(self.entries@, self.filter_text@)
        &&& (match self.selected {
            Some(i) => i < self.filtered@.len(),
            None => self.filtered@.len() == 0,
        })
        &&& (self.filtered@.len() > 0 ==> self.selected is Some)
        &&& (self.mode matches Mode::ConfirmKill { target } ==> target < self.filtered@.len())
    }

    /// Every filter-view position points into the entry list, at an
    /// entry matching the query.
    pub proof fn lemma_view_in_range(&self)
        requires
            self.inv(),
        ensures
            forall|k: int|
                #![trigger self.filtered@[k]]
                0 <= k < self.filtered@.len() ==> (self.filtered@[k] as int) < self.entries@.len()
                    && entry_matches(self.entries@[self.filtered@[k] as int], self.filter_text@),
    {
        let base = Seq::new(self.entries@.len(), |i: int| i);
        let p = match_pred(self.entries@, self.filter_text@);
        assert forall|k: int|
            #![trigger self.filtered@[k]]
            0 <= k < self.filtered@.len() implies (self.filtered@[k] as int) < self.entries@.len()
            && entry_matches(self.entries@[self.filtered@[k] as int], self.filter_text@) by {
            base.lemma_filter_pred(p, k);
            assert(view_indices(self.filtered@)[k] == self.filtered@[k] as int);
            assert(p(matching_indices(self.entries@, self.filter_text@)[k]));
        }
    }

    /// A fresh session: no entries, everything visible, port order.
    pub fn new() -> (app: App)
        ensures
            app.inv(),
            app.entries@.len() == 0,
            app.filtered@.len() == 0,
            app.selected is None,
            app.filter_text@.len() == 0,
            app.mode is Normal,
            app.show_tcp,
            app.show_udp,
            app.sort_field is Port,
            !app.show_detail,
            app.status is None,
    {
        let app = App {
            entries: Vec::new(),
            filtered: Vec::new(),
            selected: None,
            filter_text: Vec::new(),
            mode: Mode::Normal,
            show_tcp: true,
            show_udp: true,
            sort_field: SortField::Port,
            show_detail: false,
            status: None,
        };
        proof {
            reveal(Seq::filter);
            assert(matching_indices(app.entries@, app.filter_text@) =~= Seq::<int>::empty());
            assert(view_indices(app.filtered@) =~= Seq::<int>::empty());
        }
        app
    }

    /// Recomputes the filter view from the current entries and query,
    /// keeping the selection and any pending confirmation in bounds.
    pub fn apply_filter(&mut self)
        ensures
            final(self).inv(),
            final(self).entries == old(self).entries,
            final(self).filter_text == old(self).filter_text,
            final(self).sort_field == old(self).sort_field,
            final(self).show_tcp == old(self).show_tcp,
            final(self).show_udp == old(self).show_udp,
            final(self).show_detail == old(self).show_detail,
            final(self).status == old(self).status,
            view_indices(final(self).filtered@) == matching_indices(
                old(self).entries@,
                old(self).filter_text@,
            ),
            final(self).selected == spec_select(old(self).selected, final(self).filtered@.len()),
            final(self).mode == spec_mode_after(old(self).mode, final(self).filtered@.len()),
    {
        let f = compute_filtered(&self.entries, &self.filter_text);
        let len = f.len();
        self.filtered = f;
        self.selected = match self.selected {
            Some(s) => if s < len {
                Some(s)
            } else if len > 0 {
                Some(len - 1)
            } else {
                None
            },
            None => if len > 0 {
                Some(0)
            } else {
                None
            },
        };
        self.mode = match self.mode {
            Mode::ConfirmKill { target } => if target < len {
                Mode::ConfirmKill { target }
            } else {
                Mode::Normal
            },
            Mode::Normal => Mode::Normal,
            Mode::FilterEdit => Mode::FilterEdit,
        };
    }

    /// Replaces the entry list after a successful scan: the new entries
    /// are sorted under the current key and the view is re-derived. On a
    /// failed scan `set_scan_error` is called instead and the list is
    /// left untouched.
    pub fn set_entries(&mut self, entries: Vec<PortEntry>)
        requires
            old(self).inv(),
        ensures
            final(self).inv(),
            final(self).entries@ == sort_spec(old(self).sort_field, entries@),
            final(self).filter_text == old(self).filter_text,
            final(self).sort_field == old(self).sort_field,
            final(self).show_tcp == old(self).show_tcp,
            final(self).show_udp == old(self).show_udp,
            final(self).show_detail == old(self).show_detail,
            final(self).status == old(self).status,
            view_indices(final(self).filtered@) == matching_indices(
                final(self).entries@,
                old(self).filter_text@,
            ),
            final(self).selected == spec_select(old(self).selected, final(self).filtered@.len()),
            final(self).mode == spec_mode_after(old(self).mode, final(self).filtered@.len()),
    {
        let sorted = sort_entries(&entries, self.sort_field);
        self.entries = sorted;
        self.apply_filter();
    }

    /// Records a failed scan: the entry list, view and selection are
    /// kept; only a transient status is set. A scan failure is never
    /// fatal to the session.
    pub fn set_scan_error(&mut self, detail: &str, now_ms: u64)
        requires
            old(self).inv(),
        ensures
            final(self).inv(),
            final(self).entries == old(self).entries,
            final(self).filtered == old(self).filtered,
            final(self).selected == old(self).selected,
            final(self).filter_text == old(self).filter_text,
            final(self).mode == old(self).mode,
            final(self).sort_field == old(self).sort_field,
            final(self).show_tcp == old(self).show_tcp,
            final(self).show_udp == old(self).show_udp,
            final(self).show_detail == old(self).show_detail,
            final(self).status matches Some(st) && st.text@ == "Scan error: "@ + detail@
                && st.created_ms == now_ms,
    {
        let mut text = String::from_str("Scan error: ");
        text.append(detail);
        self.status = Some(StatusMessage { text, created_ms: now_ms });
    }

    /// Advances to the next sort key, re-sorts the entries, and
    /// re-derives the filter view.
    pub fn cycle_sort(&mut self)
        requires
            old(self).inv(),
        ensures
            final(self).inv(),
            final(self).sort_field == old(self).sort_field.spec_next(),
            final(self).entries@ == sort_spec(old(self).sort_field.spec_next(), old(self).entries@),
            final(self).filter_text == old(self).filter_text,
            final(self).show_tcp == old(self).show_tcp,
            final(self).show_udp == old(self).show_udp,
            final(self).show_detail == old(self).show_detail,
            final(self).status == old(self).status,
            view_indices(final(self).filtered@) == matching_indices(
                final(self).entries@,
                old(self).filter_text@,
            ),
            final(self).selected == spec_select(old(self).selected, final(self).filtered@.len()),
            final(self).mode == spec_mode_after(old(self).mode, final(self).filtered@.len()),
    {
        self.sort_field = self.sort_field.next();
        let sorted = sort_entries(&self.entries, self.sort_field);
        self.entries = sorted;
        self.apply_filter();
    }

    /// Moves the selection by a relative amount, clamped into the view;
    /// a no-op on an empty view.
    pub fn move_selection(&mut self, delta: i32)
        requires
            old(self).inv(),
        ensures
            final(self).inv(),
            final(self).selected == spec_move(
                old(self).selected,
                delta as int,
                old(self).filtered@.len(),
            ),
            final(self).entries == old(self).entries,
            final(self).filtered == old(self).filtered,
            final(self).filter_text == old(self).filter_text,
            final(self).mode == old(self).mode,
            final(self).sort_field == old(self).sort_field,
            final(self).show_tcp == old(self).show_tcp,
            final(self).show_udp == old(self).show_udp,
            final(self).show_detail == old(self).show_detail,
            final(self).status == old(self).status,
    {
        let len = self.filtered.len();
        if len == 0 {
            return ;
        }
        let cur: usize = match self.selected {
            Some(s) => s,
            None => 0,
        };
        let new_sel: usize;
        if delta >= 0 {
            let d = delta as usize;
            let room = len - 1 - cur;
            new_sel = if d > room {
                len - 1
            } else {
                cur + d
            };
        } else {
            let d = (-(delta as i64)) as usize;
            new_sel = if d > cur {
                0
            } else {
                cur - d
            };
        }
        self.selected = Some(new_sel);
    }

    /// The entry the selection points at, if any.
    pub fn selected_entry(&self) -> (r: Option<&PortEntry>)
        requires
            self.inv(),
        ensures
            r is Some <==> self.selected is Some,
            r matches Some(e) ==> self.selected matches Some(s) && s < self.filtered@.len() && (
            self.filtered@[s as int] as int) < self.entries@.len() && *e
                == self.entries@[self.filtered@[s as int] as int],
    {
        match self.selected {
            Some(s) => {
                proof {
                    self.lemma_view_in_range();
                }
                let idx = self.filtered[s];
                Some(&self.entries[idx])
            },
            None => None,
        }
    }

    /// Asks for confirmation before killing the selected entry; only
    /// meaningful in normal mode with a selection.
    pub fn request_kill(&mut self)
        requires
            old(self).inv(),
        ensures
            final(self).inv(),
            old(self).mode is Normal ==> (old(self).selected matches Some(s) ==> final(self).mode == (Mode::ConfirmKill { target: s })),
            !(old(self).mode is Normal && old(self).selected is Some) ==> final(self).mode == old(self).mode,
            final(self).entries == old(self).entries,
            final(self).filtered == old(self).filtered,
            final(self).selected == old(self).selected,
            final(self).filter_text == old(self).filter_text,
            final(self).sort_field == old(self).sort_field,
            final(self).show_tcp == old(self).show_tcp,
            final(self).show_udp == old(self).show_udp,
            final(self).show_detail == old(self).show_detail,
            final(self).status == old(self).status,
    {
        match self.mode {
            Mode::Normal => {
                match self.selected {
                    Some(s) => {
                        self.mode = Mode::ConfirmKill { target: s };
                    },
                    None => {},
                }
            },
            _ => {},
        }
    }

    /// Confirms the pending kill: returns the graceful kill action for
    /// the confirmed entry and leaves confirmation mode.
    pub fn confirm_kill(&mut self) -> (action: Action)
        requires
            old(self).inv(),
            old(self).mode is ConfirmKill,
        ensures
            final(self).inv(),
            final(self).mode is Normal,
            final(self).entries == old(self).entries,
            final(self).filtered == old(self).filtered,
            final(self).selected == old(self).selected,
            final(self).filter_text == old(self).filter_text,
            final(self).sort_field == old(self).sort_field,
            final(self).show_tcp == old(self).show_tcp,
            final(self).show_udp == old(self).show_udp,
            final(self).show_detail == old(self).show_detail,
            final(self).status == old(self).status,
            ({
                let e = old(self).entries@[old(self).filtered@[old(self).mode->target as int] as int];
                action matches Action::Kill { pid, forced, name, port } && pid == e.pid && !forced
                    && name@ == e.process_name@ && port == e.port
            }),
    {
        let target = match self.mode {
            Mode::ConfirmKill { target } => target,
            _ => 0,
        };
        proof {
            self.lemma_view_in_range();
        }
        let idx = self.filtered[target];
        let e = &self.entries[idx];
        let action = Action::Kill {
            pid: e.pid,
            forced: false,
            name: e.process_name.clone(),
            port: e.port,
        };
        self.mode = Mode::Normal;
        action
    }

    /// Cancels the pending kill without acting.
    pub fn cancel_kill(&mut self)
        requires
            old(self).inv(),
        ensures
            final(self).inv(),
            final(self).mode is Normal,
            final(self).entries == old(self).entries,
            final(self).filtered == old(self).filtered,
            final(self).selected == old(self).selected,
            final(self).filter_text == old(self).filter_text,
            final(self).sort_field == old(self).sort_field,
            final(self).show_tcp == old(self).show_tcp,
            final(self).show_udp == old(self).show_udp,
            final(self).show_detail == old(self).show_detail,
            final(self).status == old(self).status,
    {
        self.mode = Mode::Normal;
    }

    /// The forced kill action for the selected entry, bypassing
    /// confirmation; nothing to do without a selection.
    pub fn force_kill(&self) -> (action: Action)
        requires
            self.inv(),
        ensures
            self.selected matches Some(s) ==> ({
                let e = self.entries@[self.filtered@[s as int] as int];
                action matches Action::Kill { pid, forced, name, port } && pid == e.pid && forced
                    && name@ == e.process_name@ && port == e.port
            }),
            self.selected is None ==> action is Nothing,
    {
        match self.selected {
            Some(s) => {
                proof {
                    self.lemma_view_in_range();
                }
                let idx = self.filtered[s];
                let e = &self.entries[idx];
                Action::Kill { pid: e.pid, forced: true, name: e.process_name.clone(), port: e.port }
            },
            None => Action::Nothing,
        }
    }

    /// Records the outcome of a kill: always sets a status line, and
    /// asks for a refresh exactly when the kill succeeded.
    pub fn note_kill_result(
        &mut self,
        outcome: Result<(), TerminationError>,
        pid: u32,
        name: &str,
        port: u16,
        forced: bool,
        now_ms: u64,
    ) -> (do_refresh: bool)
        requires
            old(self).inv(),
        ensures
            final(self).inv(),
            do_refresh == (outcome is Ok),
            final(self).status matches Some(st) && st.text@ == spec_kill_status(
                outcome,
                pid,
                name@,
                port,
                forced,
            ) && st.created_ms == now_ms,
            final(self).entries == old(self).entries,
            final(self).filtered == old(self).filtered,
            final(self).selected == old(self).selected,
            final(self).filter_text == old(self).filter_text,
            final(self).mode == old(self).mode,
            final(self).sort_field == old(self).sort_field,
            final(self).show_tcp == old(self).show_tcp,
            final(self).show_udp == old(self).show_udp,
            final(self).show_detail == old(self).show_detail,
    {
        let text: String = match outcome {
            Ok(_) => {
                let mut t = if forced {
                    String::from_str("Force killed ")
                } else {
                    String::from_str("Killed ")
                };
                t.append(name);
                t.append(" (PID ");
                let p = u64_to_string(pid as u64);
                t.append(p.as_str());
                t.append(") on port ");
                let po = u64_to_string(port as u64);
                t.append(po.as_str());
                t
            },
            Err(e) => {
                let mut t = String::from_str("Kill failed: ");
                let m = e.message(pid);
                t.append(m.as_str());
                t
            },
        };
        self.status = Some(StatusMessage { text, created_ms: now_ms });
        match outcome {
            Ok(_) => true,
            Err(_) => false,
        }
    }

    /// Cycles protocol visibility: both, TCP only, UDP only, both again.
    pub fn toggle_protocols(&mut self)
        requires
            old(self).inv(),
        ensures
            final(self).inv(),
            (final(self).show_tcp, final(self).show_udp) == spec_toggle(
                old(self).show_tcp,
                old(self).show_udp,
            ),
            final(self).entries == old(self).entries,
            final(self).filtered == old(self).filtered,
            final(self).selected == old(self).selected,
            final(self).filter_text == old(self).filter_text,
            final(self).mode == old(self).mode,
            final(self).sort_field == old(self).sort_field,
            final(self).show_detail == old(self).show_detail,
            final(self).status == old(self).status,
    {
        if self.show_tcp && self.show_udp {
            self.show_udp = false;
        } else if self.show_tcp {
            self.show_tcp = false;
            self.show_udp = true;
        } else {
            self.show_tcp = true;
            self.show_udp = true;
        }
    }

    /// Appends a character to the filter query and re-derives the view.
    pub fn push_filter_char(&mut self, c: char)
        requires
            old(self).inv(),
        ensures
            final(self).inv(),
            final(self).filter_text@ == old(self).filter_text@.push(c),
            final(self).entries == old(self).entries,
            final(self).sort_field == old(self).sort_field,
            final(self).show_tcp == old(self).show_tcp,
            final(self).show_udp == old(self).show_udp,
            final(self).show_detail == old(self).show_detail,
            final(self).status == old(self).status,
            view_indices(final(self).filtered@) == matching_indices(
                old(self).entries@,
                old(self).filter_text@.push(c),
            ),
            final(self).selected == spec_select(old(self).selected, final(self).filtered@.len()),
            final(self).mode == spec_mode_after(old(self).mode, final(self).filtered@.len()),
    {
        self.filter_text.push(c);
        self.apply_filter();
    }

    /// Removes the last character of the filter query, if any, and
    /// re-derives the view.
    pub fn pop_filter_char(&mut self)
        requires
            old(self).inv(),
        ensures
            final(self).inv(),
            final(self).filter_text@ == if old(self).filter_text@.len() > 0 {
                old(self).filter_text@.drop_last()
            } else {
                old(self).filter_text@
            },
            final(self).entries == old(self).entries,
            final(self).sort_field == old(self).sort_field,
            final(self).show_tcp == old(self).show_tcp,
            final(self).show_udp == old(self).show_udp,
            final(self).show_detail == old(self).show_detail,
            final(self).status == old(self).status,
            view_indices(final(self).filtered@) == matching_indices(
                old(self).entries@,
                final(self).filter_text@,
            ),
            final(self).selected == spec_select(old(self).selected, final(self).filtered@.len()),
            final(self).mode == spec_mode_after(old(self).mode, final(self).filtered@.len()),
    {
        let _ = self.filter_text.pop();
        self.apply_filter();
    }

    /// Records a manual refresh in the status line.
    fn set_refreshed_status(&mut self, now_ms: u64)
        requires
            old(self).inv(),
        ensures
            final(self).inv(),
            final(self).status matches Some(st) && st.text@ == "Refreshed"@ && st.created_ms
                == now_ms,
            final(self).entries == old(self).entries,
            final(self).filtered == old(self).filtered,
            final(self).selected == old(self).selected,
            final(self).filter_text == old(self).filter_text,
            final(self).mode == old(self).mode,
            final(self).sort_field == old(self).sort_field,
            final(self).show_tcp == old(self).show_tcp,
            final(self).show_udp == old(self).show_udp,
            final(self).show_detail == old(self).show_detail,
    {
        self.status = Some(StatusMessage { text: String::from_str("Refreshed"), created_ms: now_ms });
    }

    /// Handles one decoded key press against the current mode: a pending
    /// confirmation takes exclusive input priority; the global shortcuts
    /// (quit, refresh, protocol toggle, sort cycle, detail toggle) work
    /// in normal and filter-edit mode; the kill shortcuts act only in
    /// normal mode; everything else edits the filter or moves the
    /// selection, depending on the mode.
    pub fn handle_key(&mut self, key: KeyInput, now_ms: u64) -> (action: Action)
        requires
            old(self).inv(),
        ensures
            final(self).inv(),
            // a pending confirmation always ends, and kills only on 'y'
            old(self).mode is ConfirmKill ==> final(self).mode is Normal && final(self).entries
                == old(self).entries && final(self).filtered == old(self).filtered && final(self).selected == old(self).selected && final(self).filter_text == old(self).filter_text
                && final(self).status == old(self).status && final(self).sort_field == old(self).sort_field && final(self).show_tcp == old(self).show_tcp && final(self).show_udp
                == old(self).show_udp && final(self).show_detail == old(self).show_detail,
            old(self).mode matches Mode::ConfirmKill { target } ==> ((key == KeyInput::Char('y')
                || key == KeyInput::Char('Y')) ==> ({
                let e = old(self).entries@[old(self).filtered@[target as int] as int];
                action matches Action::Kill { pid, forced, name, port } && pid == e.pid && !forced
                    && name@ == e.process_name@ && port == e.port
            })),
            old(self).mode is ConfirmKill && !(key == KeyInput::Char('y') || key == KeyInput::Char(
                'Y',
            )) ==> action is Nothing,
            // quitting
            !(old(self).mode is ConfirmKill) && (key is CtrlC || key is CtrlQ) ==> action is Quit
                && *final(self) == *old(self),
            old(self).mode is Normal && key is Esc ==> action is Quit && *final(self) == *old(self),
            // refresh requests
            !(old(self).mode is ConfirmKill) && (key is CtrlT || key is CtrlR) ==> action
                is Refresh,
            !(old(self).mode is ConfirmKill) && key is CtrlR ==> (final(self).status matches Some(
                st,
            ) && st.text@ == "Refreshed"@ && st.created_ms == now_ms),
            !(old(self).mode is ConfirmKill) && !(key is CtrlR) ==> final(self).status == old(self).status,
            // protocol visibility changes only under its shortcut
            !(old(self).mode is ConfirmKill) && key is CtrlT ==> (
                final(self).show_tcp,
                final(self).show_udp,
            ) == spec_toggle(old(self).show_tcp, old(self).show_udp),
            !(key is CtrlT) ==> final(self).show_tcp == old(self).show_tcp && final(self).show_udp
                == old(self).show_udp,
            // detail pane toggles only under its shortcut
            !(old(self).mode is ConfirmKill) && key is CtrlD ==> final(self).show_detail == !old(self).show_detail,
            !(key is CtrlD) ==> final(self).show_detail == old(self).show_detail,
            // the sort key advances only under its shortcut
            !(old(self).mode is ConfirmKill) && key is CtrlS ==> final(self).sort_field == old(self).sort_field.spec_next() && final(self).entries@ == sort_spec(
                old(self).sort_field.spec_next(),
                old(self).entries@,
            ),
            !(key is CtrlS) ==> final(self).sort_field == old(self).sort_field,
            !(key is CtrlS) ==> final(self).entries == old(self).entries,
            // kill shortcuts act only in normal mode
            old(self).mode is Normal && key is CtrlX ==> action is Nothing && (old(self).selected matches Some(s) ==> final(self).mode == (Mode::ConfirmKill { target: s }))
                && (old(self).selected is None ==> final(self).mode is Normal),
            old(self).mode is Normal && key is CtrlK ==> ({
                &&& (old(self).selected matches Some(s) ==> ({
                    let e = old(self).entries@[old(self).filtered@[s as int] as int];
                    action matches Action::Kill { pid, forced, name, port } && pid == e.pid
                        && forced && name@ == e.process_name@ && port == e.port
                }))
                &&& (old(self).selected is None ==> action is Nothing)
            }),
            old(self).mode is FilterEdit && (key is CtrlX || key is CtrlK) ==> action is Nothing
                && *final(self) == *old(self),
            // filter editing
            old(self).mode is FilterEdit ==> (key matches KeyInput::Char(c) ==> final(self).filter_text@ == old(self).filter_text@.push(c)),
            old(self).mode is FilterEdit && key is Backspace ==> final(self).filter_text@ == (
            if old(self).filter_text@.len() > 0 {
                old(self).filter_text@.drop_last()
            } else {
                old(self).filter_text@
            }),
            old(self).mode is FilterEdit && (key is Esc || key is Enter) ==> final(self).mode
                is Normal && action is Nothing,
            old(self).mode is Normal && key == KeyInput::Char('/') ==> final(self).mode
                is FilterEdit && action is Nothing,
            !(old(self).mode is FilterEdit) ==> final(self).filter_text == old(self).filter_text,
            // selection movement in normal mode
            old(self).mode is Normal && (key is Up || key == KeyInput::Char('k')) ==> final(self).selected == spec_move(old(self).selected, -1, old(self).filtered@.len()) && action
                is Nothing,
            old(self).mode is Normal && (key is Down || key == KeyInput::Char('j')) ==> final(self).selected == spec_move(old(self).selected, 1, old(self).filtered@.len()) && action
                is Nothing,
    {
        match self.mode {
            Mode::ConfirmKill { target: _ } => {
                let confirm = match key {
                    KeyInput::Char(c) => c == 'y' || c == 'Y',
                    _ => false,
                };
                if confirm {
                    self.confirm_kill()
                } else {
                    self.cancel_kill();
                    Action::Nothing
                }
            },
            _ => {
                match key {
                    KeyInput::CtrlC | KeyInput::CtrlQ => Action::Quit,
                    KeyInput::CtrlD => {
                        self.show_detail = !self.show_detail;
                        Action::Nothing
                    },
                    KeyInput::CtrlS => {
                        self.cycle_sort();
                        Action::Nothing
                    },
                    KeyInput::CtrlT => {
                        self.toggle_protocols();
                        Action::Refresh
                    },
                    KeyInput::CtrlR => {
                        self.set_refreshed_status(now_ms);
                        Action::Refresh
                    },
                    KeyInput::CtrlX => {
                        if matches!(self.mode, Mode::Normal) {
                            self.request_kill();
                        }
                        Action::Nothing
                    },
                    KeyInput::CtrlK => {
                        if matches!(self.mode, Mode::Normal) {
                            self.force_kill()
                        } else {
                            Action::Nothing
                        }
                    },
                    _ => {
                        match self.mode {
                            Mode::FilterEdit => match key {
                                KeyInput::Esc | KeyInput::Enter => {
                                    self.mode = Mode::Normal;
                                    Action::Nothing
                                },
                                KeyInput::Backspace => {
                                    self.pop_filter_char();
                                    Action::Nothing
                                },
                                KeyInput::Char(c) => {
                                    self.push_filter_char(c);
                                    Action::Nothing
                                },
                                _ => Action::Nothing,
                            },
                            _ => match key {
                                KeyInput::Esc => Action::Quit,
                                KeyInput::Up => {
                                    self.move_selection(-1);
                                    Action::Nothing
                                },
                                KeyInput::Down => {
                                    self.move_selection(1);
                                    Action::Nothing
                                },
                                KeyInput::Char(c) => {
                                    if c == '/' {
                                        self.mode = Mode::FilterEdit;
                                        Action::Nothing
                                    } else if c == 'k' {
                                        self.move_selection(-1);
                                        Action::Nothing
                                    } else if c == 'j' {
                                        self.move_selection(1);
                                        Action::Nothing
                                    } else {
                                        Action::Nothing
                                    }
                                },
                                _ => Action::Nothing,
                            },
                        }
                    },
                }
            },
        }
    }

    /// The visible status line, evaluated against the caller's clock at
    /// render time; expired or absent status yields nothing.
    pub fn status_text(&self, now_ms: u64) -> (r: Option<&String>)
        ensures
            r is Some <==> status_visible(self.status, now_ms),
            r matches Some(t) ==> self.status matches Some(m) && *t == m.text,
    {
        match &self.status {
            Some(m) => {
                if now_ms >= m.created_ms && now_ms - m.created_ms < 3000 {
                    Some(&m.text)
                } else {
                    None
                }
            },
            None => None,
        }
    }
}

/// A filter over a predicate true everywhere leaves the sequence as is.
proof fn lemma_filter_all_true<A>(s: Seq<A>, p: spec_fn(A) -> bool)
    requires
        forall|k: int| 0 <= k < s.len() ==> p(s[k]),
    ensures
        s.filter(p) == s,
    decreases s.len(),
{
    reveal(Seq::filter);
    if s.len() > 0 {
        assert(p(s.last()));
        lemma_filter_all_true(s.drop_last(), p);
        assert(s.drop_last().push(s.last()) =~= s);
    }
}

/// Filtering is a pure function of the entry list and the query: any
/// two session states over the same entries and query show the same
/// view, so re-applying the same query to the same list changes
/// nothing.
pub proof fn lemma_filter_pure(a: App, b: App)
    requires
        a.inv(),
        b.inv(),
        a.entries@ == b.entries@,
        a.filter_text@ == b.filter_text@,
    ensures
        view_indices(a.filtered@) == view_indices(b.filtered@),
{
}

/// The empty query matches every entry: the view is the full list of
/// positions, in the existing sort order.
pub proof fn lemma_empty_query_full_view(a: App)
    requires
        a.inv(),
        a.filter_text@.len() == 0,
    ensures
        view_indices(a.filtered@) == Seq::new(a.entries@.len(), |i: int| i),
{
    let base = Seq::new(a.entries@.len(), |i: int| i);
    let p = match_pred(a.entries@, a.filter_text@);
    assert forall|k: int| 0 <= k < base.len() implies p(base[k]) by {
        assert(entry_matches(a.entries@[k], a.filter_text@));
    }
    lemma_filter_all_true(base, p);
}

/// Whether the auto-refresh interval has elapsed.
pub fn should_auto_refresh(last_refresh_ms: u64, now_ms: u64) -> (r: bool)
    ensures
        r == (last_refresh_ms + 2000 <= now_ms),
{
    now_ms >= last_refresh_ms && now_ms - last_refresh_ms >= 2000
}

/// Whether one entry matches the query; `lq` is the lower-cased query.
fn entry_matches_exec(e: &PortEntry, query: &Vec<char>, lq: &Vec<char>) -> (r: bool)
    requires
        lq@ == lower(query@),
    ensures
        r == entry_matches(*e, query@),
{
    if query.len() == 0 {
        return true;
    }
    let port_str = u64_to_string(e.port as u64);
    let port_chars = chars_of(port_str.as_str());
    if has_substring_exec(&port_chars, lq) {
        return true;
    }
    let name_l = lower_chars(e.process_name.as_str());
    if has_substring_exec(&name_l, lq) {
        return true;
    }
    match e.known_service {
        Some(s) => {
            let s_l = lower_chars(s);
            has_substring_exec(&s_l, lq)
        },
        None => false,
    }
}

/// The ordered positions of the matching entries.
fn compute_filtered(entries: &Vec<PortEntry>, query: &Vec<char>) -> (out: Vec<usize>)
    ensures
        view_indices(out@) == matching_indices(entries@, query@),
{
    let n = entries.len();
    let lq = lower_vec(query);
    let mut out: Vec<usize> = Vec::new();
    let mut i: usize = 0;
    while i < n
        invariant
            i <= n,
            n == entries@.len(),
            lq@ == lower(query@),
            view_indices(out@) == Seq::new(i as nat, |k: int| k).filter(
                match_pred(entries@, query@),
            ),
        decreases n - i,
    {
        let m = entry_matches_exec(&entries[i], query, &lq);
        proof {
            let p = match_pred(entries@, query@);
            let base_i = Seq::new(i as nat, |k: int| k);
            let base_i1 = Seq::new((i + 1) as nat, |k: int| k);
            assert(base_i1 =~= base_i.push(i as int));
            lemma_filter_push(base_i, p, i as int);
        }
        if m {
            out.push(i);
            proof {
                assert(view_indices(out@) =~= Seq::new(i as nat, |k: int| k).filter(
                    match_pred(entries@, query@),
                ).push(i as int));
            }
        }
        i += 1;
    }
    out
}

} // verus!
