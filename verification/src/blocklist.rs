use vstd::prelude::*;
use vstd::string::StrSliceExecFns;

verus! {

/// A character with the ASCII capitals mapped to their small letters.
pub open spec fn fold_char(c: char) -> char {
    if 'A' <= c && c <= 'Z' {
        ((c as u8) + 32) as char
    } else {
        c
    }
}

/// A text in the form in which it is compared: every ASCII capital replaced
/// by its small letter, all else untouched.
pub open spec fn folded(text: Seq<char>) -> Seq<char> {
    text.map_values(|c: char| fold_char(c))
}

/// Folding a folded text changes nothing.
pub proof fn lemma_folded_is_stable(text: Seq<char>)
    ensures
        folded(folded(text)) == folded(text),
{
    assert(folded(folded(text)) =~= folded(text));
}

/// The texts of a sequence of strings, in order.
pub open spec fn texts(strings: Seq<String>) -> Seq<Seq<char>> {
    strings.map_values(|s: String| s@)
}

/// Whether a line of the blocklist source names a word: it is neither empty
/// nor a comment, which begins with a slash.
pub open spec fn is_entry_line(line: Seq<char>) -> bool {
    line.len() > 0 && line[0] != '/'
}

/// The lines of `lines` that name a word, in their order.
pub open spec fn entry_lines(lines: Seq<Seq<char>>) -> Seq<Seq<char>>
    decreases lines.len(),
{
    if lines.len() == 0 {
        Seq::empty()
    } else if is_entry_line(lines.last()) {
        entry_lines(lines.drop_last()).push(lines.last())
    } else {
        entry_lines(lines.drop_last())
    }
}

/// Reads the blocklist source: empty lines and comment lines are dropped,
/// every other line is kept as it stands, in its place.
pub fn load_expletives(lines: &Vec<String>) -> (entries: Vec<String>)
    ensures
        texts(entries@) == entry_lines(texts(lines@)),
{
    let mut entries: Vec<String> = Vec::new();
    let mut i: usize = 0;
    assert(texts(lines@).take(0) =~= Seq::<Seq<char>>::empty());
    assert(texts(entries@) =~= Seq::<Seq<char>>::empty());
    while i < lines.len()
        invariant
            i <= lines@.len(),
            texts(entries@) == entry_lines(texts(lines@).take(i as int)),
        decreases lines@.len() - i,
    {
        let line = &lines[i];
        proof {
            let all = texts(lines@);
            assert(all.take(i + 1).drop_last() =~= all.take(i as int));
            assert(all.take(i + 1).last() == line@);
        }
        let ghost before = texts(entries@);
        if !line.as_str().is_empty() && line.as_str().get_char(0) != '/' {
            entries.push(line.clone());
            assert(texts(entries@) =~= before.push(line@));
        }
        i += 1;
    }
    assert(texts(lines@).take(i as int) =~= texts(lines@));
    entries
}

/// Lowers the ASCII capitals of `text` with `str::to_ascii_lowercase`, which
/// maps 'A' to 'Z' onto 'a' to 'z' and copies every other character.
#[verifier::external_body]
fn ascii_lowercase(text: &str) -> (lower: String)
    ensures
        lower@ == folded(text@),
{
    text.to_ascii_lowercase()
}

/// The words to redact, each in folded form and none twice.
#[derive(Debug)]
pub struct Blocklist {
    entries: Vec<String>,
}

impl View for Blocklist {
    type V = Set<Seq<char>>;

    closed spec fn view(&self) -> Set<Seq<char>> {
        texts(self.entries@).to_set()
    }
}

impl Blocklist {
    /// Whether the list holds each of its words once and in folded form.
    pub closed spec fn well_formed(&self) -> bool {
        &&& texts(self.entries@).no_duplicates()
        &&& forall|i: int|
            0 <= i < self.entries@.len() ==> folded(#[trigger] self.entries@[i]@)
                == self.entries@[i]@
    }

    /// Every word on the list is its own folded form.
    pub proof fn lemma_words_are_folded(&self)
        requires
            self.well_formed(),
        ensures
            forall|t: Seq<char>| self@.contains(t) ==> folded(t) == t,
    {
        assert forall|t: Seq<char>| self@.contains(t) implies folded(t) == t by {
            let all = texts(self.entries@);
            let k = choose|k: int| 0 <= k < all.len() && all[k] == t;
            assert(self.entries@[k]@ == t);
        }
    }

    /// The list is a finite set of as many words as [`Blocklist::len`] counts.
    pub proof fn lemma_finite(&self)
        requires
            self.well_formed(),
        ensures
            self@.finite(),
            self@.len() == self.spec_len(),
    {
        texts(self.entries@).unique_seq_to_set();
    }

    /// The number of entries held.
    pub closed spec fn spec_len(&self) -> nat {
        self.entries@.len()
    }

    /// A list without words.
    pub fn new() -> (list: Blocklist)
        ensures
            list.well_formed(),
            list@ == Set::<Seq<char>>::empty(),
    {
        let list = Blocklist { entries: Vec::new() };
        assert(list@ =~= Set::<Seq<char>>::empty());
        list
    }

    /// The number of distinct words on the list.
    pub fn len(&self) -> (count: usize)
        requires
            self.well_formed(),
        ensures
            count == self@.len(),
            self@.finite(),
    {
        proof {
            self.lemma_finite();
        }
        self.entries.len()
    }

    /// Whether the list has no word.
    pub fn is_empty(&self) -> (empty: bool)
        requires
            self.well_formed(),
        ensures
            empty <==> self@ == Set::<Seq<char>>::empty(),
    {
        proof {
            if self.entries@.len() > 0 {
                assert(texts(self.entries@)[0] == self.entries@[0]@);
                assert(self@.contains(self.entries@[0]@));
            } else {
                assert(self@ =~= Set::<Seq<char>>::empty());
            }
        }
        self.entries.len() == 0
    }

    /// Whether `text`, taken as it stands, is one of the entries.
    fn holds(&self, text: &String) -> (found: bool)
        ensures
            found <==> self@.contains(text@),
    {
        let mut i: usize = 0;
        while i < self.entries.len()
            invariant
                i <= self.entries@.len(),
                forall|j: int| 0 <= j < i ==> texts(self.entries@)[j] != text@,
            decreases self.entries@.len() - i,
        {
            if self.entries[i] == *text {
                assert(texts(self.entries@)[i as int] == text@);
                return true;
            }
            i += 1;
        }
        false
    }

    /// Puts the folded form of `word` on the list, unless it is there.
    pub fn insert(&mut self, word: &str)
        requires
            old(self).well_formed(),
        ensures
            final(self).well_formed(),
            final(self)@ == old(self)@.insert(folded(word@)),
    {
        let lower = ascii_lowercase(word);
        if !self.holds(&lower) {
            let ghost before = texts(self.entries@);
            self.entries.push(lower);
            proof {
                let after = texts(self.entries@);
                lemma_folded_is_stable(word@);
                assert(after =~= before.push(folded(word@)));
                assert(after.to_set() =~= before.to_set().insert(folded(word@))) by {
                    assert forall|t: Seq<char>| after.to_set().contains(t) implies before.to_set().insert(
                        folded(word@),
                    ).contains(t) by {
                        let k = choose|k: int| 0 <= k < after.len() && after[k] == t;
                        if k < before.len() {
                            assert(before[k] == t);
                        }
                    }
                    assert forall|t: Seq<char>|
                        before.to_set().insert(folded(word@)).contains(
                            t,
                        ) implies after.to_set().contains(t) by {
                        if t == folded(word@) {
                            assert(after[before.len() as int] == t);
                        } else {
                            let k = choose|k: int| 0 <= k < before.len() && before[k] == t;
                            assert(after[k] == t);
                        }
                    }
                }
            }
        } else {
            assert(self@ =~= old(self)@.insert(folded(word@)));
        }
    }

    /// Whether the folded form of `word` is on the list: a match of the whole
    /// word, whatever the case of its ASCII letters.
    pub fn contains(&self, word: &str) -> (found: bool)
        ensures
            found <==> self@.contains(folded(word@)),
    {
        let lower = ascii_lowercase(word);
        self.holds(&lower)
    }

    /// The list of the folded forms of `entries`.
    pub fn from_entries(entries: &Vec<String>) -> (list: Blocklist)
        ensures
            list.well_formed(),
            forall|t: Seq<char>|
                list@.contains(t) <==> exists|i: int|
                    0 <= i < entries@.len() && folded(#[trigger] entries@[i]@) == t,
    {
        let mut list = Blocklist::new();
        let mut i: usize = 0;
        while i < entries.len()
            invariant
                i <= entries@.len(),
                list.well_formed(),
                forall|t: Seq<char>|
                    list@.contains(t) <==> exists|j: int|
                        0 <= j < i && folded(#[trigger] entries@[j]@) == t,
            decreases entries@.len() - i,
        {
            let ghost before = list@;
            list.insert(entries[i].as_str());
            proof {
                let added = folded(entries@[i as int]@);
                assert forall|t: Seq<char>| list@.contains(t) implies exists|j: int|
                    0 <= j < i + 1 && folded(#[trigger] entries@[j]@) == t by {
                    if t != added {
                        assert(before.contains(t));
                        let j = choose|j: int| 0 <= j < i && folded(#[trigger] entries@[j]@) == t;
                        assert(0 <= j < i + 1 && folded(entries@[j]@) == t);
                    } else {
                        assert(folded(entries@[i as int]@) == t);
                    }
                }
                assert forall|t: Seq<char>|
                    (exists|j: int|
                        0 <= j < i + 1 && folded(#[trigger] entries@[j]@) == t) implies list@.contains(
                    t,
                ) by {
                    let j = choose|j: int| 0 <= j < i + 1 && folded(#[trigger] entries@[j]@) == t;
                    if j < i {
                        assert(before.contains(t));
                    }
                }
            }
            i += 1;
        }
        list
    }
}

} // verus!
