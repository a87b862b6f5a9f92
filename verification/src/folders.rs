//! Choosing folders of a repository.
//!
//! The user is shown the visible directories at the top of a clone, in
//! alphabetical order, below an entry that stands for all of them, and picks
//! from that menu.

use vstd::prelude::*;
use vstd::string::*;
use crate::dotfiles::texts_of;
use crate::select::views;
use crate::text::{chars_of, copy_text};

verus! {

/// The order of texts: character by character, by the number of each
/// character; a text comes before every text that it begins.
pub open spec fn precedes(a: Seq<char>, b: Seq<char>) -> bool
    decreases a.len(),
{
    if a.len() == 0 {
        true
    } else if b.len() == 0 {
        false
    } else if a[0] != b[0] {
        a[0] < b[0]
    } else {
        precedes(a.drop_first(), b.drop_first())
    }
}

/// Each text comes before the texts after it.
pub open spec fn ascending(list: Seq<Seq<char>>) -> bool {
    forall|i: int, j: int| 0 <= i < j < list.len() ==> precedes(list[i], list[j])
}

/// Whether an entry at the top of a clone is offered as a folder: it must be
/// a directory, and its name must not begin with a dot.
pub open spec fn is_offered(entry: (Seq<char>, bool)) -> bool {
    entry.1 && !(entry.0.len() > 0 && entry.0[0] == '.')
}

/// The names of the entries that are offered as folders, in the order of the
/// entries.
pub open spec fn offered(entries: Seq<(Seq<char>, bool)>) -> Seq<Seq<char>>
    decreases entries.len(),
{
    if entries.len() == 0 {
        Seq::empty()
    } else {
        let rest = offered(entries.drop_last());
        if is_offered(entries.last()) {
            rest.push(entries.last().0)
        } else {
            rest
        }
    }
}

/// What is put to the user: the menu, the entry for every folder first, or
/// nothing where no folder is offered.
pub open spec fn folder_question_spec(folders: Seq<Seq<char>>) -> Option<Seq<Seq<char>>> {
    if folders.len() == 0 {
        None
    } else {
        Some(seq![all_folders()] + folders)
    }
}

/// The entry of the menu that stands for every folder.
pub open spec fn all_folders() -> Seq<char> {
    "All folders"@
}

/// The folders that the user chose from the menu, where position 0 stands
/// for all folders and position `k + 1` for the folder at position `k`. No
/// choice, or a choice that includes position 0, means the whole repository.
pub open spec fn chosen_folders_spec(folders: Seq<Seq<char>>, picks: Seq<usize>) -> Option<
    Seq<Seq<char>>,
> {
    if picks.len() == 0 || picks.contains(0) {
        None
    } else {
        Some(Seq::new(picks.len(), |i: int| folders[picks[i] - 1]))
    }
}

/// Whether `a` comes before `b`, or is `b`.
pub fn text_precedes(a: &str, b: &str) -> (yes: bool)
    ensures
        yes == precedes(a@, b@),
{
    let left = chars_of(a);
    let right = chars_of(b);
    let mut i: usize = 0;
    assert(left@.skip(0) =~= left@ && right@.skip(0) =~= right@);
    while i < left.len() && i < right.len()
        invariant
            left@ == a@,
            right@ == b@,
            i <= left.len(),
            i <= right.len(),
            precedes(left@, right@) == precedes(left@.skip(i as int), right@.skip(i as int)),
        decreases left.len() - i,
    {
        let ghost l = left@.skip(i as int);
        let ghost r = right@.skip(i as int);
        assert(l[0] == left@[i as int] && r[0] == right@[i as int]);
        if left[i] != right[i] {
            return left[i] < right[i];
        }
        assert(l.drop_first() =~= left@.skip(i + 1));
        assert(r.drop_first() =~= right@.skip(i + 1));
        i += 1;
    }
    i == left.len()
}

/// Puts `text` into the ascending list `list`, after the texts that come
/// before it.
fn put_in_order(list: &mut Vec<String>, text: String)
    requires
        ascending(views(old(list)@)),
    ensures
        ascending(views(final(list)@)),
        views(final(list)@).to_multiset() == views(old(list)@).to_multiset().insert(text@),
{
    let ghost before = views(list@);
    let mut at: usize = 0;
    while at < list.len() && text_precedes(list[at].as_str(), text.as_str())
        invariant
            at <= list.len(),
            views(list@) == before,
            forall|k: int| 0 <= k < at ==> precedes(before[k], text@),
        decreases list.len() - at,
    {
        at += 1;
    }
    list.insert(at, text);
    let ghost after = views(list@);
    assert(after =~= before.insert(at as int, text@));
    assert forall|i: int, j: int| 0 <= i < j < after.len() implies precedes(after[i], after[j]) by {
        // Both stood in the list before, unless one of them is the new text.
        if j > at && i == at {
            // The text that stood at the place of the new one did not come
            // before it, so the new one comes before it and all that follow.
            lemma_precedes_total(before[at as int], text@);
            if j - 1 > at {
                lemma_precedes_chain(text@, before[at as int], before[j - 1]);
            }
        } else if j > at && i < at {
            assert(after[i] == before[i] && after[j] == before[j - 1]);
        } else if j > at {
            assert(after[i] == before[i - 1] && after[j] == before[j - 1]);
        }
    }
    assert(after.to_multiset() == before.to_multiset().insert(text@)) by {
        broadcast use vstd::seq_lib::group_to_multiset_ensures;

        assert(after.remove(at as int) =~= before);
        assert(after[at as int] == text@);
        assert(after.to_multiset().count(text@) > 0) by {
            assert(after.contains(text@));
        }
        assert(after.to_multiset() =~= after.to_multiset().remove(text@).insert(text@));
    }
}

/// The folders that are offered to the user: the names of the visible
/// directories among `entries`, in ascending order. Each entry is a name
/// with the mark that says whether it is a directory.
pub fn folder_candidates(entries: &Vec<(String, bool)>) -> (folders: Vec<String>)
    ensures
        ascending(views(folders@)),
        views(folders@).to_multiset() == offered(views(entries@)).to_multiset(),
{
    let mut folders: Vec<String> = Vec::new();
    let ghost all = views(entries@);
    let mut i: usize = 0;
    assert(views(folders@) =~= Seq::<Seq<char>>::empty());
    assert(offered(all.take(0)) =~= Seq::<Seq<char>>::empty());
    while i < entries.len()
        invariant
            i <= entries.len(),
            all == views(entries@),
            ascending(views(folders@)),
            views(folders@).to_multiset() == offered(all.take(i as int)).to_multiset(),
        decreases entries.len() - i,
    {
        let name = &entries[i].0;
        let is_dir = entries[i].1;
        let letters = chars_of(name.as_str());
        let hidden = letters.len() > 0 && letters[0] == '.';
        assert(all.take(i + 1).drop_last() =~= all.take(i as int));
        assert(all.take(i + 1).last() == (name@, is_dir));
        if is_dir && !hidden {
            proof {
                broadcast use vstd::seq_lib::group_to_multiset_ensures;

            }
            put_in_order(&mut folders, copy_text(name));
        }
        i += 1;
    }
    assert(all.take(i as int) =~= all);
    folders
}

/// What is put to the user: the menu, or nothing where no folder is
/// offered. Nobody is asked then, and the whole repository is taken.
pub fn folder_question(folders: &Vec<String>) -> (menu: Option<Vec<String>>)
    ensures
        texts_of(menu) == folder_question_spec(views(folders@)),
{
    if folders.len() == 0 {
        None
    } else {
        Some(folder_menu(folders))
    }
}

/// The menu: the entry that stands for every folder, then the folders.
pub fn folder_menu(folders: &Vec<String>) -> (menu: Vec<String>)
    ensures
        views(menu@) == seq![all_folders()] + views(folders@),
{
    let mut menu: Vec<String> = Vec::new();
    menu.push(String::from_str("All folders"));
    let mut i: usize = 0;
    assert(views(menu@) =~= seq![all_folders()] + views(folders@).take(0));
    while i < folders.len()
        invariant
            i <= folders.len(),
            views(menu@) == seq![all_folders()] + views(folders@).take(i as int),
        decreases folders.len() - i,
    {
        let ghost earlier = views(menu@);
        menu.push(copy_text(&folders[i]));
        assert(views(menu@) =~= earlier.push(folders@[i as int]@));
        assert(views(folders@).take(i + 1) =~= views(folders@).take(i as int).push(
            folders@[i as int]@,
        ));
        i += 1;
    }
    assert(views(folders@).take(i as int) =~= views(folders@));
    menu
}

/// Works out the folders that the user chose from the menu.
pub fn chosen_folders(folders: &Vec<String>, picks: &Vec<usize>) -> (chosen: Option<Vec<String>>)
    requires
        forall|i: int| 0 <= i < picks.len() ==> picks[i] <= folders.len(),
    ensures
        texts_of(chosen) == chosen_folders_spec(views(folders@), picks@),
{
    if picks.len() == 0 {
        return None;
    }
    let mut chosen: Vec<String> = Vec::new();
    let mut i: usize = 0;
    while i < picks.len()
        invariant
            i <= picks.len(),
            forall|k: int| 0 <= k < picks.len() ==> picks[k] <= folders.len(),
            forall|k: int| 0 <= k < i ==> picks[k] != 0,
            chosen.len() == i,
            forall|k: int| 0 <= k < i ==> chosen@[k]@ == folders@[picks[k] - 1]@,
        decreases picks.len() - i,
    {
        if picks[i] == 0 {
            assert(picks@.contains(0));
            return None;
        }
        chosen.push(copy_text(&folders[picks[i] - 1]));
        i += 1;
    }
    assert(!picks@.contains(0));
    assert(views(chosen@) =~= chosen_folders_spec(views(folders@), picks@)->Some_0);
    Some(chosen)
}

/// Of two texts one comes before the other.
pub proof fn lemma_precedes_total(a: Seq<char>, b: Seq<char>)
    ensures
        precedes(a, b) || precedes(b, a),
    decreases a.len(),
{
    if a.len() > 0 && b.len() > 0 && a[0] == b[0] {
        lemma_precedes_total(a.drop_first(), b.drop_first());
    }
}

/// What comes before a text comes before everything that the text comes
/// before.
pub proof fn lemma_precedes_chain(a: Seq<char>, b: Seq<char>, c: Seq<char>)
    requires
        precedes(a, b),
        precedes(b, c),
    ensures
        precedes(a, c),
    decreases a.len(),
{
    if a.len() > 0 && b.len() > 0 && c.len() > 0 && a[0] == b[0] && b[0] == c[0] {
        lemma_precedes_chain(a.drop_first(), b.drop_first(), c.drop_first());
    }
}

/// Two texts that come before each other are one text.
pub proof fn lemma_precedes_both_ways(a: Seq<char>, b: Seq<char>)
    requires
        precedes(a, b),
        precedes(b, a),
    ensures
        a == b,
    decreases a.len(),
{
    if a.len() == 0 || b.len() == 0 {
        assert(a =~= b);
    } else {
        lemma_precedes_both_ways(a.drop_first(), b.drop_first());
        assert(a =~= seq![a[0]] + a.drop_first());
        assert(b =~= seq![b[0]] + b.drop_first());
    }
}

/// Every text comes before itself.
pub proof fn lemma_precedes_itself(a: Seq<char>)
    ensures
        precedes(a, a),
    decreases a.len(),
{
    if a.len() > 0 {
        lemma_precedes_itself(a.drop_first());
    }
}

/// An ascending list is determined by what it holds: two ascending lists
/// that hold the same texts, each as often as the other, are one list.
pub proof fn lemma_ascending_is_unique(a: Seq<Seq<char>>, b: Seq<Seq<char>>)
    requires
        ascending(a),
        ascending(b),
        a.to_multiset() == b.to_multiset(),
    ensures
        a == b,
{
    let order = |x: Seq<char>, y: Seq<char>| precedes(x, y);
    assert(vstd::relations::total_ordering(order)) by {
        assert forall|x: Seq<char>| #[trigger] order(x, x) by {
            lemma_precedes_itself(x);
        }
        assert forall|x: Seq<char>, y: Seq<char>| #[trigger]
            order(x, y) && #[trigger] order(y, x) implies x == y by {
            lemma_precedes_both_ways(x, y);
        }
        assert forall|x: Seq<char>, y: Seq<char>, z: Seq<char>| #[trigger]
            order(x, y) && #[trigger] order(y, z) implies order(x, z) by {
            lemma_precedes_chain(x, y, z);
        }
        assert forall|x: Seq<char>, y: Seq<char>| #[trigger]
            order(x, y) || #[trigger] order(y, x) by {
            lemma_precedes_total(x, y);
        }
    }
    assert(vstd::relations::sorted_by(a, order));
    assert(vstd::relations::sorted_by(b, order));
    vstd::seq_lib::lemma_sorted_unique(a, b, order);
}

} // verus!
