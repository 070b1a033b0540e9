//! Session controller: one card under review at a time.
//!
//! The controller owns the per-session state — the card currently shown,
//! the scheduler's candidate next states for it, and the moment it was
//! shown — and decides what the collection should be asked next.  The
//! collection itself (storage and scheduler) is a collaborator the
//! surrounding program drives; its scheduling states pass through here as
//! opaque tokens of type `S`.

use vstd::prelude::*;

use crate::decks::DeckNode;
use crate::text::{paginate_spec, paginate_text, strip_directives, strip_directives_and_paginate};

verus! {

/// The user's judgment of how well a card was recalled.
#[derive(Clone, Copy, Debug, PartialEq, Eq, Structural)]
pub enum Rating {
    Again,
    Hard,
    Good,
    Easy,
}

/// The scheduler's pre-computed state options for one queued card: the
/// state the card is in now, and the state it would move to under each
/// rating.  The controller never looks inside a state; it only hands the
/// chosen one back to the scheduler.
pub struct CardStates<S> {
    pub current: S,
    pub again: S,
    pub hard: S,
    pub good: S,
    pub easy: S,
}

/// What the collection reports for one queued card, reduced to plain
/// values: the card, its state options, its rendered texts with markup
/// already stripped (the question may still carry inline directives), the
/// human-readable duration labels, and the deck's updated counts.
pub struct QueuedCard<S> {
    pub card_id: i64,
    pub states: CardStates<S>,
    pub question_text: String,
    pub answer_text: String,
    pub durations: Vec<String>,
    pub new_count: i32,
    pub learning_count: i32,
    pub review_count: i32,
}

/// The presentation handed to the UI: a card id (`-1` means no card is
/// due), the deck row with refreshed counts, the paginated question and
/// answer, and one duration label per rating option.
pub struct CardNode {
    pub id: i64,
    pub deck: DeckNode,
    pub question: Vec<String>,
    pub answer: Vec<String>,
    pub durations: Vec<String>,
}

/// Everything the scheduler needs to grade the current card.  The caller
/// adds the wall-clock answer timestamp when submitting.
pub struct AnswerRecord<S> {
    pub card_id: i64,
    pub current_state: S,
    pub new_state: S,
    pub rating: Rating,
    pub milliseconds_taken: u32,
}

/// Per-session mutable state.  Invariant: the scheduling-state snapshot
/// exists exactly when a current card exists.
pub struct LearnSession<S> {
    pub current_card: Option<i64>,
    pub states: Option<CardStates<S>>,
    pub start_time_ms: Option<u64>,
}

/// The rating a UI integer denotes, if any.
pub open spec fn rating_of(rating: i32) -> Option<Rating> {
    if rating == 0 {
        Some(Rating::Again)
    } else if rating == 1 {
        Some(Rating::Hard)
    } else if rating == 2 {
        Some(Rating::Good)
    } else if rating == 3 {
        Some(Rating::Easy)
    } else {
        None
    }
}

/// The candidate state a rating selects.
pub open spec fn target_state<S>(states: CardStates<S>, r: Rating) -> S {
    match r {
        Rating::Again => states.again,
        Rating::Hard => states.hard,
        Rating::Good => states.good,
        Rating::Easy => states.easy,
    }
}

impl<S> LearnSession<S> {
    /// The session invariant: a state snapshot exists iff a card does.
    pub open spec fn wf(self) -> bool {
        self.states is Some <==> self.current_card is Some
    }

    /// Milliseconds from presentation to `now_ms`, as the scheduler's
    /// 32-bit field records them: zero when no presentation time was
    /// recorded or the clock moved backwards, truncated otherwise.
    pub open spec fn spec_elapsed(self, now_ms: u64) -> u32 {
        match self.start_time_ms {
            Some(st) => if now_ms >= st {
                (((now_ms - st) % 0x1_0000_0000) as u32)
            } else {
                0u32
            },
            None => 0u32,
        }
    }

    /// What one `rate_card` call does: with no card under review, no
    /// state snapshot, or an out-of-range rating, nothing is graded and
    /// the session is untouched; otherwise the session's card state is
    /// cleared and the answer record for the chosen rating is produced.
    pub open spec fn rate_spec(self, rating: i32, now_ms: u64) -> (LearnSession<S>, Option<
        AnswerRecord<S>,
    >) {
        if self.current_card is None || self.states is None || rating_of(rating) is None {
            (self, None::<AnswerRecord<S>>)
        } else {
            (
                LearnSession { current_card: None, states: None, start_time_ms: None },
                Some(
                    AnswerRecord {
                        card_id: self.current_card->0,
                        current_state: self.states->0.current,
                        new_state: target_state(self.states->0, rating_of(rating)->0),
                        rating: rating_of(rating)->0,
                        milliseconds_taken: self.spec_elapsed(now_ms),
                    },
                ),
            )
        }
    }

    /// A fresh session with no card under review.
    pub fn new() -> (s: Self)
        ensures
            s.current_card is None,
            s.states is None,
            s.start_time_ms is None,
            s.wf(),
    {
        LearnSession { current_card: None, states: None, start_time_ms: None }
    }

    /// Take a fetched card under review and assemble its presentation.
    ///
    /// Records `now_ms` as the presentation time and the card's state
    /// options for the coming rating; the question has its `[[...]]`
    /// directives suppressed and both texts are paginated at
    /// `chars_per_page`; the returned deck row carries the refreshed
    /// counts the collection reported with the card.
    pub fn present_card(
        &mut self,
        card: QueuedCard<S>,
        deck: DeckNode,
        chars_per_page: usize,
        now_ms: u64,
    ) -> (r: CardNode)
        ensures
            final(self).current_card == Some(card.card_id),
            final(self).states == Some(card.states),
            final(self).start_time_ms == Some(now_ms),
            final(self).wf(),
            r.id == card.card_id,
            r.deck.id == deck.id && r.deck.name == deck.name && r.deck.level == deck.level,
            r.deck.collapsed == deck.collapsed && r.deck.has_children == deck.has_children,
            r.deck.parent_index == deck.parent_index,
            r.deck.new == card.new_count && r.deck.learn == card.learning_count && r.deck.due
                == card.review_count,
            r.question@.map_values(|p: String| p@) == paginate_spec(
                strip_directives(card.question_text@),
                chars_per_page as int,
            ),
            r.answer@.map_values(|p: String| p@) == paginate_spec(
                card.answer_text@,
                chars_per_page as int,
            ),
            r.durations == card.durations,
    {
        self.current_card = Some(card.card_id);
        self.start_time_ms = Some(now_ms);
        let question = strip_directives_and_paginate(card.question_text.as_str(), true, chars_per_page);
        let answer = paginate_text(card.answer_text.as_str(), chars_per_page);
        let updated_deck = DeckNode {
            id: deck.id,
            name: deck.name,
            level: deck.level,
            collapsed: deck.collapsed,
            new: card.new_count,
            learn: card.learning_count,
            due: card.review_count,
            has_children: deck.has_children,
            parent_index: deck.parent_index,
        };
        let r = CardNode {
            id: card.card_id,
            deck: updated_deck,
            question,
            answer,
            durations: card.durations,
        };
        self.states = Some(card.states);
        r
    }

    /// Grade the card under review.
    ///
    /// Returns the answer record the caller must submit to the scheduler,
    /// or `None` when there is nothing to grade — no current card, no
    /// state snapshot, or a rating outside the four known values; in that
    /// case the session is untouched.  A successful grading clears the
    /// session's card state, so a second rating without a new card in
    /// between grades nothing.
    pub fn rate_card(&mut self, rating: i32, now_ms: u64) -> (r: Option<AnswerRecord<S>>)
        ensures
            (*final(self), r) == old(self).rate_spec(rating, now_ms),
    {
        if self.current_card.is_none() || self.states.is_none() {
            return None;
        }
        if rating < 0 || rating > 3 {
            return None;
        }
        let card_id = self.current_card.unwrap();
        let states = self.states.take().unwrap();
        let elapsed: u32 = match self.start_time_ms {
            Some(st) => if now_ms >= st {
                ((now_ms - st) % 0x1_0000_0000u64) as u32
            } else {
                0
            },
            None => 0,
        };
        self.current_card = None;
        self.start_time_ms = None;
        let (rating_enum, new_state) = if rating == 0 {
            (Rating::Again, states.again)
        } else if rating == 1 {
            (Rating::Hard, states.hard)
        } else if rating == 2 {
            (Rating::Good, states.good)
        } else {
            (Rating::Easy, states.easy)
        };
        Some(
            AnswerRecord {
                card_id,
                current_state: states.current,
                new_state,
                rating: rating_enum,
                milliseconds_taken: elapsed,
            },
        )
    }
}

/// The sentinel presentation for a deck with no due card: id `-1`, a
/// single-page "no cards due" question, no answer pages, no duration
/// labels, and the deck row passed through unchanged.  It reads no
/// session state, so it is the same whatever was reviewed before, and it
/// never touches the session's timing state.
pub fn no_card_presentation(deck: DeckNode) -> (r: CardNode)
    ensures
        r.id == -1,
        r.deck == deck,
        r.question@.len() == 1 && r.question@[0]@ == "No more cards due!"@,
        r.answer@.len() == 0,
        r.durations@.len() == 0,
{
    let mut question: Vec<String> = Vec::new();
    question.push("No more cards due!".to_owned());
    CardNode { id: -1, deck, question, answer: Vec::new(), durations: Vec::new() }
}

/// Whether the text still carries a `[[type:` marker, the sign of a
/// type-answer card whose default rendering is unsuitable here.
pub open spec fn has_type_directive(s: Seq<char>) -> bool {
    exists|i: int| 0 <= i && i + 7 <= s.len() && #[trigger] s.subrange(i, i + 7) == "[[type:"@
}

/// Does the stripped answer text contain the literal `[[type:`?
pub fn contains_type_directive(text: &str) -> (r: bool)
    ensures
        r == has_type_directive(text@),
{
    let n: usize = text.unicode_len();
    proof {
        reveal_strlit("[[type:");
        assert("[[type:"@ =~= seq!['[', '[', 't', 'y', 'p', 'e', ':']);
    }
    if n < 7 {
        return false;
    }
    let mut i: usize = 0;
    while i <= n - 7
        invariant
            7 <= n == text@.len(),
            i <= n - 6,
            "[[type:"@ =~= seq!['[', '[', 't', 'y', 'p', 'e', ':'],
            forall|k: int| 0 <= k < i ==> #[trigger] text@.subrange(k, k + 7) != "[[type:"@,
        decreases n - i,
    {
        if text.get_char(i) == '[' && text.get_char(i + 1) == '[' && text.get_char(i + 2) == 't'
            && text.get_char(i + 3) == 'y' && text.get_char(i + 4) == 'p' && text.get_char(i + 5)
            == 'e' && text.get_char(i + 6) == ':' {
            proof {
                assert(text@.subrange(i as int, i as int + 7) =~= "[[type:"@);
            }
            return true;
        }
        proof {
            assert(text@.subrange(i as int, i as int + 7) != "[[type:"@) by {
                if text@.subrange(i as int, i as int + 7) == "[[type:"@ {
                    assert(text@.subrange(i as int, i as int + 7)[0] == text@[i as int]);
                    assert(text@.subrange(i as int, i as int + 7)[1] == text@[i as int + 1]);
                    assert(text@.subrange(i as int, i as int + 7)[2] == text@[i as int + 2]);
                    assert(text@.subrange(i as int, i as int + 7)[3] == text@[i as int + 3]);
                    assert(text@.subrange(i as int, i as int + 7)[4] == text@[i as int + 4]);
                    assert(text@.subrange(i as int, i as int + 7)[5] == text@[i as int + 5]);
                    assert(text@.subrange(i as int, i as int + 7)[6] == text@[i as int + 6]);
                }
            }
        }
        i = i + 1;
    }
    proof {
        assert forall|k: int| 0 <= k && k + 7 <= n implies #[trigger] text@.subrange(k, k + 7)
            != "[[type:"@ by {
            assert(k < i);
        }
    }
    false
}

/// The answer text after type-answer substitution, walking the notetype
/// field names in order: each field named "Back" whose value exists
/// replaces the answer, so the last such field wins; with no "Back"
/// field (or none with a value) the answer stays as it was.
pub open spec fn back_subst(
    answer: Seq<char>,
    names: Seq<Seq<char>>,
    values: Seq<Seq<char>>,
    k: int,
) -> Seq<char>
    decreases k,
{
    if k <= 0 {
        answer
    } else {
        let prev = back_subst(answer, names, values, k - 1);
        if names[k - 1] == "Back"@ && k - 1 < values.len() {
            values[k - 1]
        } else {
            prev
        }
    }
}

/// Replace a type-answer card's rendered answer with the raw value of
/// the note field its notetype names "Back".  `names` are the notetype's
/// field names, `values` the note's field values, aligned by position; a
/// "Back" name with no value of its own is ignored.
pub fn substitute_back_field(answer: String, names: &Vec<String>, values: &Vec<String>) -> (r:
    String)
    ensures
        r@ == back_subst(
            answer@,
            names@.map_values(|s: String| s@),
            values@.map_values(|s: String| s@),
            names@.len() as int,
        ),
{
    let ghost names_s = names@.map_values(|s: String| s@);
    let ghost values_s = values@.map_values(|s: String| s@);
    let back = "Back".to_owned();
    let mut result = answer;
    let mut k: usize = 0;
    while k < names.len()
        invariant
            names_s == names@.map_values(|s: String| s@),
            values_s == values@.map_values(|s: String| s@),
            k <= names@.len(),
            back@ == "Back"@,
            result@ == back_subst(answer@, names_s, values_s, k as int),
        decreases names@.len() - k,
    {
        if names[k].eq(&back) && k < values.len() {
            result = values[k].clone();
        }
        k = k + 1;
    }
    result
}

/// The four empty duration labels used when the scheduler cannot
/// describe the candidate outcomes: one label per rating option.
pub fn empty_durations() -> (r: Vec<String>)
    ensures
        r@.len() == 4,
        forall|i: int| 0 <= i < 4 ==> (#[trigger] r@[i])@.len() == 0,
{
    let mut r: Vec<String> = Vec::new();
    r.push(String::new());
    r.push(String::new());
    r.push(String::new());
    r.push(String::new());
    r
}

/// Grading clears the card under review: once a rating has produced an
/// answer record, a second rating — with no new card presented in
/// between, a sentinel fetch leaving the session untouched — grades
/// nothing and leaves the session as it is, whatever rating or clock it
/// is given.
pub proof fn lemma_rate_twice_no_op<S>(s: LearnSession<S>, r1: i32, t1: u64, r2: i32, t2: u64)
    requires
        s.rate_spec(r1, t1).1 is Some,
    ensures
        s.rate_spec(r1, t1).0.rate_spec(r2, t2) == (
            s.rate_spec(r1, t1).0,
            None::<AnswerRecord<S>>,
        ),
{
}

} // verus!
