//! The form editor's state: the scratch buffers, the committed pair list, and
//! the two-axis UI mode (screen plus optional sub-field).

use vstd::prelude::*;

use crate::json::{
    json_of, push_char, push_escaped, push_key_prefix, push_record_end, push_value_mid,
    lemma_records_snoc, records_text,
};

verus! {

/// The one export failure kind. The encoder below is total and verified, so
/// `export_json` proves that it never actually returns this.
#[derive(Debug)]
pub struct SerializationError;

/// Which top-level view is active. The library only stores this; the
/// surrounding controller transitions it.
pub enum CurrentScreen {
    Main,
    Editing,
    Exiting,
}

/// Which scratch buffer currently receives input while editing. `None` means
/// no field-editing sub-state is active.
pub enum CurrentlyEditing {
    Key,
    Value,
}

/// One committed key/value entry.
pub struct KeyValuePair {
    pub key: String,
    pub value: String,
}

/// The whole form editor state.
pub struct App {
    /// Scratch buffer for the key being typed.
    pub key_input: String,
    /// Scratch buffer for the value being typed.
    pub value_input: String,
    /// Committed pairs, in commit order; never reordered or deduplicated.
    pub pairs: Vec<KeyValuePair>,
    /// The active top-level view.
    pub current_screen: CurrentScreen,
    /// The active sub-field, if any.
    pub currently_editing: Option<CurrentlyEditing>,
}

/// The pair list as a mathematical sequence of (key, value) character strings.
pub open spec fn pairs_view(ps: Seq<KeyValuePair>) -> Seq<(Seq<char>, Seq<char>)> {
    ps.map_values(|p: KeyValuePair| (p.key@, p.value@))
}

/// What one commit does to the pair list: appends the buffered pair.
pub open spec fn commit_step(
    ps: Seq<(Seq<char>, Seq<char>)>,
    key: Seq<char>,
    value: Seq<char>,
) -> Seq<(Seq<char>, Seq<char>)> {
    ps.push((key, value))
}

/// What one toggle does to the sub-field: absent enters `Key`; afterwards
/// `Key` and `Value` alternate. No toggle result is ever absent.
pub open spec fn toggled(e: Option<CurrentlyEditing>) -> Option<CurrentlyEditing> {
    match e {
        None => Some(CurrentlyEditing::Key),
        Some(CurrentlyEditing::Key) => Some(CurrentlyEditing::Value),
        Some(CurrentlyEditing::Value) => Some(CurrentlyEditing::Key),
    }
}

impl App {
    /// A fresh editor: empty buffers, empty pair list, `Main` screen, no
    /// sub-field being edited.
    pub fn new() -> (app: App)
        ensures
            app.key_input@ == Seq::<char>::empty(),
            app.value_input@ == Seq::<char>::empty(),
            app.pairs@ == Seq::<KeyValuePair>::empty(),
            app.current_screen == CurrentScreen::Main,
            app.currently_editing == None::<CurrentlyEditing>,
    {
        App {
            key_input: String::new(),
            value_input: String::new(),
            pairs: Vec::new(),
            current_screen: CurrentScreen::Main,
            currently_editing: None,
        }
    }

    /// Appends the buffered (key, value) pair to the list, then clears both
    /// buffers and leaves the field-editing sub-state.
    pub fn save_key_value(&mut self)
        ensures
            pairs_view(final(self).pairs@) == commit_step(
                pairs_view(old(self).pairs@),
                old(self).key_input@,
                old(self).value_input@,
            ),
            final(self).pairs@.len() == old(self).pairs@.len() + 1,
            final(self).key_input@ == Seq::<char>::empty(),
            final(self).value_input@ == Seq::<char>::empty(),
            final(self).currently_editing == None::<CurrentlyEditing>,
            final(self).current_screen == old(self).current_screen,
    {
        let key = self.key_input.clone();
        let value = self.value_input.clone();
        self.pairs.push(KeyValuePair { key, value });
        self.key_input = String::new();
        self.value_input = String::new();
        self.currently_editing = None;
        proof {
            assert(pairs_view(self.pairs@) =~= pairs_view(old(self).pairs@).push(
                (old(self).key_input@, old(self).value_input@),
            ));
        }
    }

    /// Advances the sub-field along the toggle cycle: absent goes to `Key`,
    /// `Key` to `Value`, `Value` back to `Key`.
    pub fn toggle_editing(&mut self)
        ensures
            final(self).currently_editing == toggled(old(self).currently_editing),
            final(self).key_input == old(self).key_input,
            final(self).value_input == old(self).value_input,
            final(self).pairs == old(self).pairs,
            final(self).current_screen == old(self).current_screen,
    {
        if let Some(edit_mode) = &self.currently_editing {
            match edit_mode {
                CurrentlyEditing::Key => self.currently_editing = Some(CurrentlyEditing::Value),
                CurrentlyEditing::Value => self.currently_editing = Some(CurrentlyEditing::Key),
            };
        } else {
            self.currently_editing = Some(CurrentlyEditing::Key);
        }
    }

    /// Renders the committed pairs as the JSON array text that `json_of`
    /// states, e.g. `[{"key":"a","value":"1"}]`, and `[]` for an empty list.
    /// The result is always `Ok`: the encoder cannot fail.
    pub fn export_json(&self) -> (r: Result<String, SerializationError>)
        ensures
            r is Ok,
            r matches Ok(text) ==> text@ == json_of(pairs_view(self.pairs@)),
    {
        let mut out = String::new();
        push_char(&mut out, '[');
        let n = self.pairs.len();
        let mut i: usize = 0;
        while i < n
            invariant
                i <= n,
                n == self.pairs@.len(),
                out@ == seq!['['] + records_text(pairs_view(self.pairs@).take(i as int)),
            decreases n - i,
        {
            if i > 0 {
                push_char(&mut out, ',');
            }
            let p = &self.pairs[i];
            push_key_prefix(&mut out);
            push_escaped(&mut out, p.key.as_str());
            push_value_mid(&mut out);
            push_escaped(&mut out, p.value.as_str());
            push_record_end(&mut out);
            proof {
                let pv = pairs_view(self.pairs@);
                assert(pv[i as int] == (self.pairs@[i as int].key@, self.pairs@[i as int].value@));
                lemma_records_snoc(pv.take(i as int), pv[i as int]);
                assert(pv.take(i as int + 1) =~= pv.take(i as int).push(pv[i as int]));
                assert(out@ =~= seq!['['] + records_text(pv.take(i as int + 1)));
            }
            i = i + 1;
        }
        push_char(&mut out, ']');
        proof {
            let pv = pairs_view(self.pairs@);
            assert(pv.take(n as int) =~= pv);
            assert(out@ =~= json_of(pv));
        }
        Ok(out)
    }
}

/// The pair list that a whole run of commits leaves behind, starting from
/// `ps` and committing each buffered pair of `inputs` in turn.
pub open spec fn pairs_after(
    ps: Seq<(Seq<char>, Seq<char>)>,
    inputs: Seq<(Seq<char>, Seq<char>)>,
) -> Seq<(Seq<char>, Seq<char>)>
    decreases inputs.len(),
{
    if inputs.len() == 0 {
        ps
    } else {
        pairs_after(commit_step(ps, inputs[0].0, inputs[0].1), inputs.drop_first())
    }
}

/// For every sequence of commits, with arbitrary (possibly empty, possibly
/// duplicate) buffered strings: the list grows by exactly the number of
/// commits, keeps its old elements in place, and appends the committed pairs
/// in call order.
pub proof fn lemma_commit_sequence(
    ps: Seq<(Seq<char>, Seq<char>)>,
    inputs: Seq<(Seq<char>, Seq<char>)>,
)
    ensures
        pairs_after(ps, inputs) == ps + inputs,
        pairs_after(ps, inputs).len() == ps.len() + inputs.len(),
        forall|i: int| 0 <= i < ps.len() ==> pairs_after(ps, inputs)[i] == ps[i],
        forall|i: int|
            0 <= i < inputs.len() ==> pairs_after(ps, inputs)[ps.len() + i] == inputs[i],
    decreases inputs.len(),
{
    if inputs.len() == 0 {
        assert(ps + inputs =~= ps);
    } else {
        lemma_commit_sequence(ps.push(inputs[0]), inputs.drop_first());
        assert(ps.push(inputs[0]) + inputs.drop_first() =~= ps + inputs);
    }
}

/// The toggle cycle: absent enters `Key`; `Key` and `Value` then alternate,
/// and no number of toggles ever returns the sub-field to absent.
pub proof fn lemma_toggle_cycle(e: Option<CurrentlyEditing>)
    ensures
        toggled(None::<CurrentlyEditing>) == Some(CurrentlyEditing::Key),
        toggled(Some(CurrentlyEditing::Key)) == Some(CurrentlyEditing::Value),
        toggled(Some(CurrentlyEditing::Value)) == Some(CurrentlyEditing::Key),
        toggled(e) is Some,
{
}

} // verus!
