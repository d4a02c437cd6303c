//! What the web handlers decide from the submitted forms and the stored tags.

use vstd::prelude::*;
use crate::db::count_nonblank;
use crate::text::{
    chars_of, split, split_by, string_of, trim, trim_str, views, lemma_trim_idempotent,
};

verus! {

/// The tags that an edit form's comma-separated tag field lists: each piece
/// trimmed, blank pieces left out, in order.
pub open spec fn form_tags(pieces: Seq<Seq<char>>) -> Seq<Seq<char>>
    decreases pieces.len(),
{
    if pieces.len() == 0 {
        Seq::<Seq<char>>::empty()
    } else {
        let r = form_tags(pieces.drop_last());
        let t = trim(pieces.last());
        if t.len() > 0 {
            r.push(t)
        } else {
            r
        }
    }
}

/// The name of the tag given to bookmarks that have no other tag.
pub open spec fn untagged_name() -> Seq<char> {
    "untagged"@
}

/// The tags other than `untagged`, in order.
pub open spec fn without_untagged(tags: Seq<Seq<char>>) -> Seq<Seq<char>>
    decreases tags.len(),
{
    if tags.len() == 0 {
        Seq::<Seq<char>>::empty()
    } else {
        let r = without_untagged(tags.drop_last());
        if tags.last() == untagged_name() {
            r
        } else {
            r.push(tags.last())
        }
    }
}

/// Splits an edit form's tag field at commas, trims each piece and drops the
/// blank ones.
pub fn parse_tag_field(field: &str) -> (r: Vec<String>)
    ensures
        views(r@) == form_tags(split(field@, ',')),
{
    let pieces = split_by(field, ',');
    let ghost ps = views(pieces@);
    let mut r: Vec<String> = Vec::new();
    assert(ps.take(0) =~= Seq::<Seq<char>>::empty());
    for i in 0..pieces.len()
        invariant
            ps == views(pieces@),
            views(r@) == form_tags(ps.take(i as int)),
    {
        assert(ps.take(i + 1).drop_last() =~= ps.take(i as int));
        let t = trim_str(pieces[i].as_str());
        let ghost r0 = r@;
        if !t.as_str().is_empty() {
            r.push(t);
            assert(views(r@) =~= views(r0).push(r@.last()@));
        }
    }
    assert(ps.take(pieces.len() as int) =~= ps);
    r
}

/// The notes an edit form submits: none when the field is blank, otherwise the
/// field exactly as typed.
pub fn notes_field(notes: &str) -> (r: Option<String>)
    ensures
        trim(notes@).len() == 0 ==> r is None,
        trim(notes@).len() > 0 ==> (r matches Some(n) && n@ == notes@),
{
    if trim_str(notes).as_str().is_empty() {
        None
    } else {
        Some(string_of(&chars_of(notes)))
    }
}

/// The tag pane of the dashboard: whether `untagged` is among the tags in use,
/// and the other tags in their order.
pub fn tag_pane(all_tags: &Vec<String>) -> (r: (bool, Vec<String>))
    ensures
        r.0 == views(all_tags@).contains(untagged_name()),
        views(r.1@) == without_untagged(views(all_tags@)),
{
    let untagged = string_of(&chars_of("untagged"));
    let ghost ts = views(all_tags@);
    let mut has = false;
    let mut normal: Vec<String> = Vec::new();
    assert(ts.take(0) =~= Seq::<Seq<char>>::empty());
    for i in 0..all_tags.len()
        invariant
            ts == views(all_tags@),
            untagged@ == untagged_name(),
            has == ts.take(i as int).contains(untagged_name()),
            views(normal@) == without_untagged(ts.take(i as int)),
    {
        let ghost pre = ts.take(i as int);
        assert(ts.take(i + 1) =~= pre.push(ts[i as int]));
        assert(ts.take(i + 1).drop_last() =~= pre);
        assert(ts[i as int] == all_tags@[i as int]@);
        let ghost n0 = normal@;
        if all_tags[i] == untagged {
            has = true;
            assert(ts.take(i + 1)[i as int] == untagged_name());
        } else {
            normal.push(all_tags[i].clone());
            assert(views(normal@) =~= views(n0).push(ts[i as int]));
            assert(has == ts.take(i + 1).contains(untagged_name())) by {
                let cur = ts.take(i + 1);
                if cur.contains(untagged_name()) {
                    let k = choose|k: int| 0 <= k < cur.len() && #[trigger] cur[k] == untagged_name();
                    if k < i {
                        assert(pre[k] == untagged_name());
                    }
                }
            }
        }
    }
    assert(ts.take(all_tags.len() as int) =~= ts);
    (has, normal)
}

/// The dashboard's tag list never shows `untagged` among the ordinary tags,
/// and every other tag in use is shown there.
pub proof fn lemma_tag_pane_partition(tags: Seq<Seq<char>>)
    ensures
        !without_untagged(tags).contains(untagged_name()),
        forall|t: Seq<char>|
            tags.contains(t) && t != untagged_name() ==> #[trigger] without_untagged(tags).contains(t),
    decreases tags.len(),
{
    if tags.len() > 0 {
        let init = tags.drop_last();
        lemma_tag_pane_partition(init);
        let prev = without_untagged(init);
        let cur = without_untagged(tags);
        assert(!cur.contains(untagged_name())) by {
            if cur.contains(untagged_name()) {
                let k = choose|k: int| 0 <= k < cur.len() && #[trigger] cur[k] == untagged_name();
                if k < prev.len() {
                    assert(prev[k] == cur[k]);
                }
            }
        }
        assert forall|t: Seq<char>|
            tags.contains(t) && t != untagged_name() implies #[trigger] cur.contains(t) by {
            let k = choose|k: int| 0 <= k < tags.len() && #[trigger] tags[k] == t;
            if k < tags.len() - 1 {
                assert(init[k] == t);
                assert(init.contains(t));
                assert(prev.contains(t));
                let j = choose|j: int| 0 <= j < prev.len() && #[trigger] prev[j] == t;
                assert(cur[j] == prev[j]);
            } else {
                assert(cur[cur.len() - 1] == t);
            }
        }
    }
}

proof fn lemma_form_tags_trimmed(pieces: Seq<Seq<char>>)
    ensures
        forall|i: int|
            0 <= i < form_tags(pieces).len() ==> trim(#[trigger] form_tags(pieces)[i])
                == form_tags(pieces)[i] && form_tags(pieces)[i].len() > 0,
    decreases pieces.len(),
{
    if pieces.len() > 0 {
        lemma_form_tags_trimmed(pieces.drop_last());
        lemma_trim_idempotent(pieces.last());
        let prev = form_tags(pieces.drop_last());
        let f = form_tags(pieces);
        assert forall|i: int| 0 <= i < f.len() implies trim(#[trigger] f[i]) == f[i]
            && f[i].len() > 0 by {
            if i < prev.len() {
                assert(f[i] == prev[i]);
            }
        }
    }
}

proof fn lemma_count_all_nonblank(tags: Seq<Seq<char>>)
    requires
        forall|i: int| 0 <= i < tags.len() ==> trim(#[trigger] tags[i]).len() > 0,
    ensures
        count_nonblank(tags) == tags.len(),
    decreases tags.len(),
{
    if tags.len() > 0 {
        let init = tags.drop_last();
        assert forall|i: int| 0 <= i < init.len() implies trim(#[trigger] init[i]).len() > 0 by {
            assert(init[i] == tags[i]);
        }
        lemma_count_all_nonblank(init);
        assert(trim(tags[tags.len() - 1]).len() > 0);
    }
}

/// No tag typed into the edit form is lost when the tags are normalised for
/// linking: every parsed tag is already trimmed and not blank, so each one
/// yields a linked tag.
pub proof fn lemma_form_tags_all_linked(field: Seq<char>)
    ensures
        forall|i: int|
            0 <= i < form_tags(split(field, ',')).len() ==> trim(
                #[trigger] form_tags(split(field, ','))[i],
            ) == form_tags(split(field, ','))[i],
        count_nonblank(form_tags(split(field, ','))) == form_tags(split(field, ',')).len(),
{
    let f = form_tags(split(field, ','));
    lemma_form_tags_trimmed(split(field, ','));
    lemma_count_all_nonblank(f);
}

} // verus!
