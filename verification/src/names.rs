//! Lists of names as one blob of bytes: the names joined by single commas.
//!
//! Splitting cuts at every comma and nowhere else, so an empty blob is one
//! empty name, not an empty list.

use vstd::prelude::*;
use crate::bytes::saturated;

verus! {

/// The byte that separates two names.
pub const COMMA: u8 = 44;

/// No byte of `name` is a comma.
pub open spec fn comma_free(name: Seq<u8>) -> bool {
    forall|i: int| 0 <= i < name.len() ==> name[i] != COMMA
}

/// No name of the list holds a comma.
pub open spec fn all_comma_free(names: Seq<Seq<u8>>) -> bool {
    forall|i: int| 0 <= i < names.len() ==> comma_free(#[trigger] names[i])
}

/// The names as byte sequences.
pub open spec fn names_of(names: Seq<Vec<u8>>) -> Seq<Seq<u8>> {
    Seq::new(names.len(), |i: int| names[i]@)
}

/// The names in order with one comma between each two, and none at either
/// end.
pub open spec fn join(names: Seq<Seq<u8>>) -> Seq<u8>
    decreases names.len(),
{
    if names.len() == 0 {
        Seq::empty()
    } else if names.len() == 1 {
        names[0]
    } else {
        join(names.drop_last()) + seq![COMMA] + names.last()
    }
}

/// The names that `blob` holds: the stretches of bytes between its commas,
/// in order.
pub open spec fn split(blob: Seq<u8>) -> Seq<Seq<u8>>
    decreases blob.len(),
{
    if blob.len() == 0 {
        seq![Seq::empty()]
    } else {
        let names = split(blob.drop_last());
        if blob.last() == COMMA {
            names.push(Seq::empty())
        } else {
            names.drop_last().push(names.last().push(blob.last()))
        }
    }
}

/// Splitting always gives at least one name, and no name that it gives holds
/// a comma.
pub proof fn lemma_split_shape(blob: Seq<u8>)
    ensures
        split(blob).len() >= 1,
        all_comma_free(split(blob)),
    decreases blob.len(),
{
    if blob.len() > 0 {
        lemma_split_shape(blob.drop_last());
        let names = split(blob.drop_last());
        assert forall|i: int| 0 <= i < split(blob).len() implies comma_free(
            #[trigger] split(blob)[i],
        ) by {
            if i < names.len() - 1 {
                assert(split(blob)[i] == names[i]);
            } else if blob.last() != COMMA {
                assert(comma_free(names[names.len() - 1]));
            }
        }
    }
}

/// Joining what splitting gave restores the blob.
pub proof fn lemma_join_split(blob: Seq<u8>)
    ensures
        join(split(blob)) == blob,
    decreases blob.len(),
{
    if blob.len() == 0 {
        assert(join(split(blob)) =~= blob);
    } else {
        let front = blob.drop_last();
        let names = split(front);
        lemma_join_split(front);
        lemma_split_shape(front);
        let result = split(blob);
        if blob.last() == COMMA {
            assert(result.drop_last() =~= names);
            assert(join(result) =~= blob);
        } else if names.len() == 1 {
            assert(join(result) =~= blob);
        } else {
            assert(result.drop_last() =~= names.drop_last());
            assert(result.last() == names.last().push(blob.last()));
            assert(join(names) == join(names.drop_last()) + seq![COMMA] + names.last());
            assert(join(result) == join(names.drop_last()) + seq![COMMA] + result.last());
            assert(blob =~= front.push(blob.last()));
            assert(join(result) =~= blob);
        }
    }
}

/// Bytes without a comma, put behind a blob, lengthen its last name.
pub proof fn lemma_split_append(blob: Seq<u8>, more: Seq<u8>)
    requires
        comma_free(more),
    ensures
        split(blob).len() >= 1,
        split(blob + more) == split(blob).drop_last().push(split(blob).last() + more),
    decreases more.len(),
{
    lemma_split_shape(blob);
    let names = split(blob);
    if more.len() == 0 {
        assert(blob + more =~= blob);
        assert(names.last() + more =~= names.last());
        assert(names.drop_last().push(names.last()) =~= names);
    } else {
        let front = more.drop_last();
        lemma_split_append(blob, front);
        assert((blob + more).drop_last() =~= blob + front);
        assert((blob + more).last() == more.last());
        let grown = split(blob + front);
        assert(grown.drop_last() =~= names.drop_last());
        assert(grown.last().push(more.last()) =~= names.last() + more);
    }
}

/// Splitting what joining gave restores the names, provided there is at least
/// one name and none holds a comma.
pub proof fn lemma_split_join(names: Seq<Seq<u8>>)
    requires
        names.len() >= 1,
        all_comma_free(names),
    ensures
        split(join(names)) == names,
    decreases names.len(),
{
    if names.len() == 1 {
        lemma_split_append(Seq::empty(), names[0]);
        assert(Seq::<u8>::empty() + names[0] =~= names[0]);
        assert(split(join(names)) =~= names);
    } else {
        let front = names.drop_last();
        assert(all_comma_free(front)) by {
            assert forall|i: int| 0 <= i < front.len() implies comma_free(#[trigger] front[i]) by {
                assert(front[i] == names[i]);
            }
        }
        lemma_split_join(front);
        let head = join(front) + seq![COMMA];
        assert(head.drop_last() =~= join(front));
        assert(split(head) == front.push(Seq::empty()));
        assert(comma_free(names.last()));
        lemma_split_append(head, names.last());
        assert(Seq::<u8>::empty() + names.last() =~= names.last());
        assert(split(join(names)) =~= names);
    }
}

/// Cuts `blob` into its names.
pub fn split_names(blob: &[u8]) -> (names: Vec<Vec<u8>>)
    ensures
        names_of(names@) == split(blob@),
{
    let mut names: Vec<Vec<u8>> = Vec::new();
    let mut current: Vec<u8> = Vec::new();
    let mut i: usize = 0;
    while i < blob.len()
        invariant
            i <= blob@.len(),
            names_of(names@).push(current@) == split(blob@.take(i as int)),
        decreases blob@.len() - i,
    {
        let byte: u8 = blob[i];
        let ghost before = names_of(names@).push(current@);
        proof {
            assert(blob@.take(i + 1).drop_last() =~= blob@.take(i as int));
            assert(blob@.take(i + 1).last() == byte);
        }
        if byte == COMMA {
            names.push(current);
            current = Vec::new();
            assert(names_of(names@).push(current@) =~= before.push(Seq::empty()));
        } else {
            current.push(byte);
            assert(names_of(names@).push(current@) =~= before.drop_last().push(
                before.last().push(byte),
            ));
        }
        i = i + 1;
    }
    let ghost before = names_of(names@).push(current@);
    names.push(current);
    proof {
        assert(blob@.take(i as int) =~= blob@);
        assert(names_of(names@) =~= before);
    }
    names
}

/// Joins `names` into one blob.
pub fn join_names(names: &Vec<Vec<u8>>) -> (blob: Vec<u8>)
    ensures
        blob@ == join(names_of(names@)),
{
    let ghost all = names_of(names@);
    let mut blob: Vec<u8> = Vec::new();
    let mut i: usize = 0;
    while i < names.len()
        invariant
            i <= names@.len(),
            all == names_of(names@),
            blob@ == join(all.take(i as int)),
        decreases names@.len() - i,
    {
        proof {
            assert(all.take(i + 1).drop_last() =~= all.take(i as int));
            assert(all.take(i + 1).last() == names@[i as int]@);
        }
        if i > 0 {
            blob.push(COMMA);
        }
        blob.extend_from_slice(names[i].as_slice());
        i = i + 1;
        assert(blob@ =~= join(all.take(i as int)));
    }
    assert(all.take(i as int) =~= all);
    blob
}

/// The length of the blob that joining `names` gives, without building it.
/// A length beyond sixty-four bits is given as the largest number they hold.
pub fn joined_len(names: &Vec<Vec<u8>>) -> (n: u64)
    ensures
        n == saturated(join(names_of(names@)).len()),
{
    let ghost all = names_of(names@);
    let mut n: u64 = 0;
    let mut i: usize = 0;
    while i < names.len()
        invariant
            i <= names@.len(),
            all == names_of(names@),
            n == saturated(join(all.take(i as int)).len()),
        decreases names@.len() - i,
    {
        proof {
            assert(all.take(i + 1).drop_last() =~= all.take(i as int));
            assert(all.take(i + 1).last() == names@[i as int]@);
        }
        if i > 0 {
            n = n.saturating_add(1);
        }
        n = n.saturating_add(names[i].len() as u64);
        i = i + 1;
    }
    assert(all.take(i as int) =~= all);
    n
}

} // verus!
