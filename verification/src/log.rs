//! The record of a run: which file went where, in the order of the moves.

use vstd::prelude::*;
use vstd::string::*;
use crate::paths::FilePath;

verus! {

/// One move: the file's path before, its path after, and its category.
#[derive(Debug, PartialEq, Eq)]
pub struct MoveEntry {
    pub from: FilePath,
    pub to: FilePath,
    pub category: String,
}

/// A move as contracts speak of it.
pub struct MoveEntryView {
    pub from: Seq<Seq<char>>,
    pub to: Seq<Seq<char>>,
    pub category: Seq<char>,
}

impl View for MoveEntry {
    type V = MoveEntryView;

    open spec fn view(&self) -> MoveEntryView {
        MoveEntryView { from: self.from@, to: self.to@, category: self.category@ }
    }
}

impl Clone for MoveEntry {
    fn clone(&self) -> (copy: Self)
        ensures
            copy@ == self@,
    {
        MoveEntry {
            from: self.from.clone(),
            to: self.to.clone(),
            category: self.category.clone(),
        }
    }
}

/// The moves of one run, oldest first, under the time the run began.
#[derive(Debug, PartialEq, Eq)]
pub struct MoveLog {
    pub timestamp: String,
    pub moves: Vec<MoveEntry>,
}

/// A log as contracts speak of it.
pub struct MoveLogView {
    pub timestamp: Seq<char>,
    pub moves: Seq<MoveEntryView>,
}

impl View for MoveLog {
    type V = MoveLogView;

    open spec fn view(&self) -> MoveLogView {
        MoveLogView {
            timestamp: self.timestamp@,
            moves: moves_view(self.moves@),
        }
    }
}

/// The views of some moves, in order.
pub open spec fn moves_view(moves: Seq<MoveEntry>) -> Seq<MoveEntryView> {
    Seq::new(moves.len(), |i: int| moves[i]@)
}

/// Whether a character is a decimal digit.
pub open spec fn is_digit(c: char) -> bool {
    c == '0' || c == '1' || c == '2' || c == '3' || c == '4' || c == '5' || c == '6' || c == '7'
        || c == '8' || c == '9'
}

/// Whether a text ends in `+00:00`, the offset of UTC.
pub open spec fn ends_in_utc_offset(text: Seq<char>) -> bool {
    text.len() >= 6 && text.subrange(text.len() - 6, text.len() as int) == seq![
        '+',
        '0',
        '0',
        ':',
        '0',
        '0',
    ]
}

/// Whether a text begins as `YYYY-MM-DDThh:mm:ss` does: digits, with `-` at
/// 4 and 7, `T` at 10, and `:` at 13 and 16.
pub open spec fn begins_with_date_and_time(text: Seq<char>) -> bool {
    &&& text.len() >= 19
    &&& is_digit(text[0]) && is_digit(text[1]) && is_digit(text[2]) && is_digit(text[3])
    &&& text[4] == '-'
    &&& is_digit(text[5]) && is_digit(text[6])
    &&& text[7] == '-'
    &&& is_digit(text[8]) && is_digit(text[9])
    &&& text[10] == 'T'
    &&& is_digit(text[11]) && is_digit(text[12])
    &&& text[13] == ':'
    &&& is_digit(text[14]) && is_digit(text[15])
    &&& text[16] == ':'
    &&& is_digit(text[17]) && is_digit(text[18])
}

/// Whether a text has the shape of a time in UTC as RFC 3339 writes it: it
/// ends in `+00:00`, and it begins with date and time in the usual places
/// unless the year has more than four digits, which a sign in front shows.
pub open spec fn well_stamped(text: Seq<char>) -> bool {
    &&& ends_in_utc_offset(text)
    &&& text.len() >= 25
    &&& is_digit(text[0]) ==> begins_with_date_and_time(text)
}

impl MoveLogView {
    /// This log with one more move at its end.
    pub open spec fn with(self, entry: MoveEntryView) -> MoveLogView {
        MoveLogView { timestamp: self.timestamp, moves: self.moves.push(entry) }
    }
}

/// The categories of the moves, each once, in the order in which the moves
/// first reach them.
pub open spec fn distinct_categories(moves: Seq<MoveEntryView>) -> Seq<Seq<char>>
    decreases moves.len(),
{
    if moves.len() == 0 {
        Seq::empty()
    } else {
        let before = distinct_categories(moves.drop_last());
        if before.contains(moves.last().category) {
            before
        } else {
            before.push(moves.last().category)
        }
    }
}

/// `distinct_categories` names no category twice.
pub proof fn lemma_distinct_categories_differ(moves: Seq<MoveEntryView>)
    ensures
        distinct_categories(moves).no_duplicates(),
    decreases moves.len(),
{
    if moves.len() > 0 {
        lemma_distinct_categories_differ(moves.drop_last());
    }
}

/// `distinct_categories` names a category exactly when a move has it.
pub proof fn lemma_distinct_categories_cover(moves: Seq<MoveEntryView>, category: Seq<char>)
    ensures
        distinct_categories(moves).contains(category) <==> touches(moves, category),
    decreases moves.len(),
{
    if moves.len() > 0 {
        let front = moves.drop_last();
        let last = moves.last().category;
        let before = distinct_categories(front);
        let all = distinct_categories(moves);
        lemma_distinct_categories_cover(front, category);
        if all.contains(category) {
            if before.contains(category) {
                let i = choose|i: int|
                    0 <= i < front.len() && (#[trigger] front[i]).category == category;
                assert(moves[i].category == category);
            } else {
                let k = choose|k: int| 0 <= k < all.len() && all[k] == category;
                assert(category == last);
                assert(moves[moves.len() - 1].category == category);
            }
        }
        if touches(moves, category) {
            let i = choose|i: int|
                0 <= i < moves.len() && (#[trigger] moves[i]).category == category;
            if i < front.len() {
                assert(front[i].category == category);
                assert(touches(front, category));
                let k = choose|k: int| 0 <= k < before.len() && before[k] == category;
                assert(all[k] == category);
            } else {
                if before.contains(last) {
                    assert(all.contains(category));
                } else {
                    assert(all[before.len() as int] == last);
                }
            }
        }
    }
}

/// Whether `category` is the category of one of `moves`.
pub open spec fn touches(moves: Seq<MoveEntryView>, category: Seq<char>) -> bool {
    exists|i: int| 0 <= i < moves.len() && (#[trigger] moves[i]).category == category
}

impl Clone for MoveLog {
    fn clone(&self) -> (copy: Self)
        ensures
            copy@ == self@,
    {
        let mut moves: Vec<MoveEntry> = Vec::new();
        let mut i: usize = 0;
        while i < self.moves.len()
            invariant
                i <= self.moves@.len(),
                moves@.len() == i,
                forall|k: int| 0 <= k < i ==> moves@[k]@ == self.moves@[k]@,
            decreases self.moves@.len() - i,
        {
            moves.push(self.moves[i].clone());
            i = i + 1;
        }
        let copy = MoveLog { timestamp: self.timestamp.clone(), moves };
        assert(copy@.moves =~= self@.moves);
        copy
    }
}

impl MoveLog {
    /// An empty log under the given time.
    pub fn new(timestamp: String) -> (log: Self)
        ensures
            log@.timestamp == timestamp@,
            log@.moves == Seq::<MoveEntryView>::empty(),
    {
        let log = MoveLog { timestamp, moves: Vec::new() };
        assert(log@.moves =~= Seq::<MoveEntryView>::empty());
        log
    }

    /// Adds a move at the end of the log.
    pub fn record(&mut self, entry: MoveEntry)
        ensures
            final(self)@ == old(self)@.with(entry@),
    {
        self.moves.push(entry);
        assert(self@.moves =~= old(self)@.moves.push(entry@));
    }

    /// The categories that the run touched, each once, in the order in which
    /// it first reached them. Their number is the number of category folders
    /// that the run used.
    pub fn categories(&self) -> (names: Vec<String>)
        ensures
            names@.len() == distinct_categories(self@.moves).len(),
            forall|i: int| 0 <= i < names@.len() ==> names@[i]@ == distinct_categories(self@.moves)[i],
    {
        let mut names: Vec<String> = Vec::new();
        let mut i: usize = 0;
        assert(self@.moves.take(0) =~= Seq::<MoveEntryView>::empty());
        while i < self.moves.len()
            invariant
                i <= self.moves@.len(),
                names@.len() == distinct_categories(self@.moves.take(i as int)).len(),
                forall|k: int|
                    0 <= k < names@.len() ==> names@[k]@ == distinct_categories(
                        self@.moves.take(i as int),
                    )[k],
            decreases self.moves@.len() - i,
        {
            let category = &self.moves[i].category;
            let ghost before = distinct_categories(self@.moves.take(i as int));
            proof {
                let upto = self@.moves.take(i + 1);
                assert(upto.drop_last() =~= self@.moves.take(i as int));
                assert(upto.last().category == category@);
            }
            let mut seen = false;
            let mut j: usize = 0;
            while j < names.len()
                invariant
                    j <= names@.len(),
                    names@.len() == before.len(),
                    forall|k: int| 0 <= k < names@.len() ==> names@[k]@ == before[k],
                    seen <==> exists|k: int| 0 <= k < j && before[k] == category@,
                decreases names@.len() - j,
            {
                if names[j] == *category {
                    assert(before[j as int] == category@);
                    seen = true;
                }
                j = j + 1;
            }
            if !seen {
                names.push(category.clone());
            }
            i = i + 1;
        }
        assert(self@.moves.take(i as int) =~= self@.moves);
        names
    }

    /// How many files the run processed.
    pub fn len(&self) -> (count: usize)
        ensures
            count == self@.moves.len(),
    {
        self.moves.len()
    }
}

} // verus!
