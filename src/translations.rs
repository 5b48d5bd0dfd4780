//! The translation cache: one translation per source text, replaced when
//! the text is translated again.
use vstd::prelude::*;

use crate::error::{AppError, AppResult};
use crate::model::{Snapshot, Translation};
use crate::store::{fits, lemma_filter_push, lemma_filter_subset, room_for_one, unchanged_except, Store, Table, lemma_unique_filter, lemma_unique_push, source_key};

verus! {

/// The cached translation of `source`: that of the first row for it, if any.
pub open spec fn translation_of(rows: Seq<Translation>, source: Seq<char>) -> Option<Seq<char>>
    decreases rows.len(),
{
    if rows.len() == 0 {
        None
    } else if rows[0].source_text@ == source {
        Some(rows[0].translated_text@)
    } else {
        translation_of(rows.drop_first(), source)
    }
}

pub open spec fn other_source(source: Seq<char>) -> spec_fn(Translation) -> bool {
    |t: Translation| t.source_text@ != source
}

/// Saving a translation: any earlier one for the same source goes, and the
/// new one is added with time `now`.
pub open spec fn save_translation_post(
    old: Store,
    new: Store,
    source: Seq<char>,
    translated: Seq<char>,
    now: u64,
    r: AppResult<()>,
) -> bool {
    let base = old.translations@.filter(other_source(source));
    if !fits(base.len() + 1) {
        r matches Err(e) && e is Database && unchanged_except(old, new, Set::empty())
    } else {
        &&& r is Ok
        &&& new.translations@.len() == base.len() + 1
        &&& new.translations@.drop_last() == base
        &&& new.translations@.last().source_text@ == source
        &&& new.translations@.last().translated_text@ == translated
        &&& new.translations@.last().created_at == now
        &&& unchanged_except(old, new, set![Table::Translations])
    }
}

proof fn lemma_translation_absent(rows: Seq<Translation>, source: Seq<char>)
    requires
        forall|i: int| 0 <= i < rows.len() ==> (#[trigger] rows[i]).source_text@ != source,
    ensures
        translation_of(rows, source) == None::<Seq<char>>,
    decreases rows.len(),
{
    if rows.len() > 0 {
        assert forall|i: int| 0 <= i < rows.drop_first().len() implies (#[trigger] rows.drop_first()[i]).source_text@ != source by {
            assert(rows.drop_first()[i] == rows[i + 1]);
        }
        lemma_translation_absent(rows.drop_first(), source);
    }
}

proof fn lemma_translation_last(rows: Seq<Translation>, t: Translation)
    requires
        forall|i: int| 0 <= i < rows.len() ==> (#[trigger] rows[i]).source_text@ != t.source_text@,
    ensures
        translation_of(rows.push(t), t.source_text@) == Some(t.translated_text@),
    decreases rows.len(),
{
    if rows.len() > 0 {
        assert(rows.push(t).drop_first() =~= rows.drop_first().push(t));
        assert forall|i: int| 0 <= i < rows.drop_first().len() implies (#[trigger] rows.drop_first()[i]).source_text@ != t.source_text@ by {
            assert(rows.drop_first()[i] == rows[i + 1]);
        }
        lemma_translation_last(rows.drop_first(), t);
    }
}

fn translations_without(v: &Vec<Translation>, source: &str) -> (r: Vec<Translation>)
    ensures
        r@ == v@.filter(other_source(source@)),
{
    let key = String::from_str(source);
    let mut out: Vec<Translation> = Vec::new();
    let mut i: usize = 0;
    while i < v.len()
        invariant
            i <= v@.len(),
            key@ == source@,
            out@ == v@.take(i as int).filter(other_source(source@)),
        decreases v@.len() - i,
    {
        proof {
            assert(v@.take(i + 1) =~= v@.take(i as int).push(v@[i as int]));
            lemma_filter_push(v@.take(i as int), v@[i as int], other_source(source@));
        }
        if !(v[i].source_text == key) {
            out.push(v[i].snapshot());
        }
        i = i + 1;
    }
    assert(v@.take(v@.len() as int) =~= v@);
    out
}

impl Store {
    /// The cached translation of `source_text`; a miss is `None`, not an error.
    pub fn get_cached_translation(&self, source_text: &str) -> (r: AppResult<Option<String>>)
        ensures
            r matches Ok(o) && match o {
                Some(t) => translation_of(self.translations@, source_text@) == Some(t@),
                None => translation_of(self.translations@, source_text@) == None::<Seq<char>>,
            },
    {
        let key = String::from_str(source_text);
        let rows = &self.translations;
        let mut i: usize = 0;
        assert(rows@.skip(0) =~= rows@);
        while i < rows.len()
            invariant
                rows@ == self.translations@,
                i <= rows@.len(),
                key@ == source_text@,
                translation_of(rows@, source_text@) == translation_of(rows@.skip(i as int), source_text@),
            decreases rows@.len() - i,
        {
            proof {
                assert(rows@.skip(i as int).drop_first() =~= rows@.skip(i + 1));
            }
            if rows[i].source_text == key {
                return Ok(Some(rows[i].translated_text.clone()));
            }
            i = i + 1;
        }
        Ok(None)
    }

    /// Caches `translated_text` as the translation of `source_text` at time
    /// `now`, replacing any earlier one.
    pub fn save_cached_translation(&mut self, source_text: String, translated_text: String, now: u64) -> (r: AppResult<()>)
        requires
            old(self).wf(),
        ensures
            final(self).wf(),
            save_translation_post(*old(self), *final(self), source_text@, translated_text@, now, r),
    {
        let mut base = translations_without(&self.translations, source_text.as_str());
        if !room_for_one(base.len()) {
            return Err(AppError::Database(String::from_str("database or disk is full")));
        }
        proof {
            lemma_filter_subset(self.translations@, other_source(source_text@));
            lemma_unique_filter(self.translations@, source_key(), other_source(source_text@));
            assert forall|i: int| 0 <= i < base@.len() implies (source_key())(#[trigger] base@[i]) != source_text@ by {
                self.translations@.lemma_filter_pred(other_source(source_text@), i);
            }
        }
        let ghost kept = base@;
        base.push(Translation { source_text, translated_text, created_at: now });
        self.translations = base;
        assert(self.translations@.drop_last() =~= kept);
        proof {
            lemma_unique_push(kept, self.translations@.last(), source_key());
            assert(self.translations@ =~= kept.push(self.translations@.last()));
        }
        Ok(())
    }
}

/// After a translation is saved for a source text, looking that text up
/// gives the new translation, saved at the new time; a text with no row
/// gives no translation.
pub proof fn law_translation_upsert(
    old: Store,
    new: Store,
    source: Seq<char>,
    translated: Seq<char>,
    now: u64,
    unknown: Seq<char>,
)
    requires
        save_translation_post(old, new, source, translated, now, Ok(())),
    ensures
        translation_of(new.translations@, source) == Some(translated),
        new.translations@.last().created_at == now,
        (forall|i: int| 0 <= i < new.translations@.len() ==> (#[trigger] new.translations@[i]).source_text@ != unknown)
            ==> translation_of(new.translations@, unknown) == None::<Seq<char>>,
{
    let base = old.translations@.filter(other_source(source));
    assert forall|i: int| 0 <= i < base.len() implies (#[trigger] base[i]).source_text@ != source by {
        old.translations@.lemma_filter_pred(other_source(source), i);
    }
    assert(new.translations@ =~= base.push(new.translations@.last()));
    lemma_translation_last(base, new.translations@.last());
    if forall|i: int| 0 <= i < new.translations@.len() ==> (#[trigger] new.translations@[i]).source_text@ != unknown {
        lemma_translation_absent(new.translations@, unknown);
    }
}

} // verus!
