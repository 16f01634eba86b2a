//! "Move to…": a conversation filed into one of its account's own folders.
//!
//! The menu lists the account's own folders that hold mail, by path, in order: never the inbox
//! or a special-use folder, which are places with ops of their own, and never a label that is
//! only a label. Filing goes through `Op::File`, which names the server's label that is the
//! folder.

use vstd::prelude::*;
use vstd::multiset::Multiset;
use crate::ids::ThreadId;
use crate::motion::Op;
use crate::page::LabelId;
use crate::text::{chars_of, str_eq, views};

verus! {

/// An account, by its id's 128 bits.
#[derive(Debug, Clone, Copy, PartialEq, Eq, Hash, Structural)]
pub struct AccountId(pub u128);

/// A server folder as the menu reads it.
pub struct Folder {
    /// Its path, as the server names it and the menu shows it.
    pub path: String,
    /// Whether it is the inbox or a special-use folder, which has an op of its own.
    pub special: bool,
    /// Whether it holds mail, rather than being a label only.
    pub holds_mail: bool,
}

/// Whether `a` sorts before or with `b`: character by character, a prefix first; the order of
/// their UTF-8 bytes, which is how paths compare.
pub open spec fn lex_le(a: Seq<char>, b: Seq<char>) -> bool
    decreases a.len(),
{
    if a.len() == 0 {
        true
    } else if b.len() == 0 {
        false
    } else if a[0] < b[0] {
        true
    } else if a[0] > b[0] {
        false
    } else {
        lex_le(a.drop_first(), b.drop_first())
    }
}

proof fn lemma_lex_total(a: Seq<char>, b: Seq<char>)
    ensures
        lex_le(a, b) || lex_le(b, a),
    decreases a.len(),
{
    if a.len() > 0 && b.len() > 0 && a[0] == b[0] {
        lemma_lex_total(a.drop_first(), b.drop_first());
    }
}

proof fn lemma_lex_trans(a: Seq<char>, b: Seq<char>, c: Seq<char>)
    requires
        lex_le(a, b),
        lex_le(b, c),
    ensures
        lex_le(a, c),
    decreases a.len(),
{
    if a.len() > 0 && b.len() > 0 && c.len() > 0 && a[0] == b[0] && b[0] == c[0] {
        lemma_lex_trans(a.drop_first(), b.drop_first(), c.drop_first());
    }
}

/// Whether `s` is in path order.
pub open spec fn in_order(s: Seq<Seq<char>>) -> bool {
    forall|i: int, k: int| 0 <= i < k < s.len() ==> lex_le(#[trigger] s[i], #[trigger] s[k])
}

/// The paths of the folders the menu may list, in the order given.
pub open spec fn listable(folders: Seq<Folder>) -> Seq<Seq<char>>
    decreases folders.len(),
{
    if folders.len() == 0 {
        seq![]
    } else {
        let before = listable(folders.drop_last());
        let f = folders.last();
        if !f.special && f.holds_mail {
            before.push(f.path@)
        } else {
            before
        }
    }
}

fn lex_le_exec(a: &Vec<char>, b: &Vec<char>) -> (r: bool)
    ensures
        r == lex_le(a@, b@),
{
    let mut i: usize = 0;
    assert(a@.subrange(0, a.len() as int) =~= a@);
    assert(b@.subrange(0, b.len() as int) =~= b@);
    while i < a.len()
        invariant
            i <= a.len(),
            lex_le(a@, b@) == lex_le(a@.subrange(i as int, a.len() as int), b@.subrange(i as int, b.len() as int)),
            i <= b.len(),
        decreases a.len() - i,
    {
        let ghost x = a@.subrange(i as int, a.len() as int);
        let ghost y = b@.subrange(i as int, b.len() as int);
        if i >= b.len() {
            return false;
        }
        if a[i] < b[i] {
            return true;
        }
        if a[i] > b[i] {
            return false;
        }
        assert(x.drop_first() =~= a@.subrange(i + 1, a.len() as int));
        assert(y.drop_first() =~= b@.subrange(i + 1, b.len() as int));
        i = i + 1;
    }
    true
}

proof fn lemma_insert_multiset(s: Seq<Seq<char>>, pos: int, x: Seq<char>)
    requires
        0 <= pos <= s.len(),
    ensures
        s.insert(pos, x).to_multiset() == s.to_multiset().insert(x),
{
    let t = s.insert(pos, x);
    s.insert_ensures(pos, x);
    assert(t.remove(pos) =~= s);
    t.to_multiset_ensures();
    assert(t.contains(x)) by {
        assert(t[pos] == x);
    }
    assert(t.to_multiset().remove(x) == s.to_multiset());
    assert(t.to_multiset() =~= s.to_multiset().insert(x));
}

/// The account's own folders that hold mail, by path, in path order: never the inbox or a
/// special-use folder, and never a label that is only a label.
pub fn destinations(folders: &Vec<Folder>) -> (r: Vec<String>)
    ensures
        in_order(views(r@)),
        views(r@).to_multiset() == listable(folders@).to_multiset(),
{
    let mut out: Vec<String> = Vec::new();
    let mut i: usize = 0;
    proof {
        assert(views(out@) =~= Seq::<Seq<char>>::empty());
        Seq::<Seq<char>>::empty().to_multiset_ensures();
        listable(folders@.subrange(0, 0)).to_multiset_ensures();
        assert(listable(folders@.subrange(0, 0)) =~= Seq::<Seq<char>>::empty());
    }
    while i < folders.len()
        invariant
            i <= folders.len(),
            in_order(views(out@)),
            views(out@).to_multiset() == listable(folders@.subrange(0, i as int)).to_multiset(),
        decreases folders.len() - i,
    {
        proof {
            assert(folders@.subrange(0, i + 1).drop_last() =~= folders@.subrange(0, i as int));
            assert(folders@.subrange(0, i + 1).last() == folders@[i as int]);
        }
        let f = &folders[i];
        if !f.special && f.holds_mail {
            let x = chars_of(f.path.as_str());
            let ghost v = views(out@);
            let mut j: usize = 0;
            let mut stop = false;
            while j < out.len() && !stop
                invariant
                    j <= out.len(),
                    v == views(out@),
                    forall|k: int| 0 <= k < j ==> lex_le(#[trigger] v[k], x@),
                    stop ==> j < out.len() && !lex_le(v[j as int], x@),
                decreases out.len() - j + if stop { 0int } else { 1int },
            {
                let y = chars_of(out[j].as_str());
                if lex_le_exec(&y, &x) {
                    j = j + 1;
                } else {
                    stop = true;
                }
            }
            proof {
                v.insert_ensures(j as int, x@);
                let w = v.insert(j as int, x@);
                assert forall|a: int, b: int| 0 <= a < b < w.len() implies lex_le(#[trigger] w[a], #[trigger] w[b]) by {
                    if b < j {
                        assert(w[a] == v[a] && w[b] == v[b]);
                    } else if b == j {
                        assert(w[a] == v[a]);
                    } else if a < j {
                        assert(w[a] == v[a] && w[b] == v[b - 1]);
                        if j < v.len() {
                            lemma_lex_total(v[j as int], x@);
                            assert(lex_le(v[a], x@));
                            lemma_lex_trans(v[a], x@, v[j as int]);
                            if j as int <= b - 1 {
                                if j as int == b - 1 {
                                } else {
                                    lemma_lex_trans(v[a], v[j as int], v[b - 1]);
                                }
                            }
                        }
                    } else if a == j {
                        assert(w[b] == v[b - 1]);
                        lemma_lex_total(v[j as int], x@);
                        if b - 1 > j {
                            lemma_lex_trans(x@, v[j as int], v[b - 1]);
                        }
                    } else {
                        assert(w[a] == v[a - 1] && w[b] == v[b - 1]);
                    }
                }
                lemma_insert_multiset(v, j as int, x@);
                listable(folders@.subrange(0, i as int)).to_multiset_ensures();
            }
            out.insert(j, f.path.clone());
            assert(views(out@) =~= v.insert(j as int, x@));
        }
        i = i + 1;
    }
    assert(folders@.subrange(0, folders.len() as int) =~= folders@);
    out
}

/// Menus with more folders than this filter as you type.
pub const FILTER_OVER: usize = 7;

/// Whether the Move to menu filters as you type: only past [`FILTER_OVER`] folders.
pub fn filters_as_you_type(folders: usize) -> (r: bool)
    ensures
        r == (folders > FILTER_OVER),
{
    folders > FILTER_OVER
}

/// What the menu says when there is nowhere to move to.
pub fn menu_note(folders: usize) -> (r: Option<&'static str>)
    ensures
        folders == 0 ==> (r matches Some(n) && n@ == "This account has no folders of its own to move to."@),
        folders > 0 ==> r is None,
{
    if folders == 0 {
        Some("This account has no folders of its own to move to.")
    } else {
        None
    }
}

/// A label as the store holds it: its id, its name, and whether it is the server's own.
pub struct Label {
    pub id: LabelId,
    pub name: String,
    pub provider: bool,
}

/// The first of `labels` at or after `from` that is the server's own and named `path`.
pub open spec fn provider_label(labels: Seq<Label>, path: Seq<char>, from: int) -> Option<LabelId>
    decreases labels.len() - from,
{
    if from < 0 || from >= labels.len() {
        None
    } else if labels[from].provider && labels[from].name@ == path {
        Some(labels[from].id)
    } else {
        provider_label(labels, path, from + 1)
    }
}

/// The label `Op::File` files under for the folder at `path`: the server's own label of that
/// name, if there is one; `None` says a label has to be made (as the server's).
pub fn folder_label(labels: &Vec<Label>, path: &str) -> (r: Option<LabelId>)
    ensures
        r == provider_label(labels@, path@, 0),
{
    let mut i: usize = 0;
    while i < labels.len()
        invariant
            i <= labels.len(),
            provider_label(labels@, path@, 0) == provider_label(labels@, path@, i as int),
        decreases labels.len() - i,
    {
        if labels[i].provider && str_eq(labels[i].name.as_str(), path) {
            return Some(labels[i].id);
        }
        i = i + 1;
    }
    None
}

/// Those of `threads` on `account`, in order: a folder is one server's, and nothing happens to
/// a conversation on another account.
pub open spec fn on_account(threads: Seq<(ThreadId, Option<AccountId>)>, account: AccountId) -> Seq<ThreadId>
    decreases threads.len(),
{
    if threads.len() == 0 {
        seq![]
    } else {
        let before = on_account(threads.drop_last(), account);
        if threads.last().1 == Some(account) {
            before.push(threads.last().0)
        } else {
            before
        }
    }
}

/// The ops that file each of `threads` (with the account each belongs to) on `account` into the
/// folder whose label is `label`, as one gesture.
pub fn file_ops(threads: &Vec<(ThreadId, Option<AccountId>)>, account: AccountId, label: LabelId) -> (r: Vec<(ThreadId, Op)>)
    ensures
        r@.len() == on_account(threads@, account).len(),
        forall|j: int| 0 <= j < r@.len() ==> (#[trigger] r@[j]) == (on_account(threads@, account)[j], Op::File(label)),
{
    let mut out: Vec<(ThreadId, Op)> = Vec::new();
    let mut i: usize = 0;
    while i < threads.len()
        invariant
            i <= threads.len(),
            out@.len() == on_account(threads@.subrange(0, i as int), account).len(),
            forall|j: int| 0 <= j < out@.len() ==> (#[trigger] out@[j]) == (on_account(threads@.subrange(0, i as int), account)[j], Op::File(label)),
        decreases threads.len() - i,
    {
        proof {
            assert(threads@.subrange(0, i + 1).drop_last() =~= threads@.subrange(0, i as int));
            assert(threads@.subrange(0, i + 1).last() == threads@[i as int]);
        }
        let (thread, owner) = threads[i];
        let ours = match owner {
            Some(a) => a.0 == account.0,
            None => false,
        };
        if ours {
            out.push((thread, Op::File(label)));
        }
        i = i + 1;
    }
    assert(threads@.subrange(0, threads.len() as int) =~= threads@);
    out
}

} // verus!
