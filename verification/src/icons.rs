use vstd::prelude::*;

use crate::error::{ErrorV, FlareError};
use crate::parser::{entries_view, parse_str, spec_parse_str, Entry, EntryV};
use crate::text::{chars_of, eq_str, spec_pop_token, string_of};
use crate::value::{
    parse_int_chars, parse_point_chars, pop_or_empty, spec_parse_int, spec_parse_point,
    token_or_empty, Point, int_token, lemma_pop_token_at, rest_after, token_at,
};

verus! {

/// One icon atlas: the icons from `first_id` on are cells of `path`.
#[derive(Debug, Clone, PartialEq, Eq)]
pub struct IconSet {
    pub first_id: i32,
    pub path: String,
}

/// Icon atlas registration (`engine/icons.txt`).
#[derive(Debug, Clone, PartialEq, Eq)]
pub struct IconConfig {
    pub sets: Vec<IconSet>,
    pub text_offset: Point,
}

/// Mathematical model of an [`IconConfig`]: the sets as `(first_id, path)`.
pub struct IconConfigV {
    pub sets: Seq<(i32, Seq<char>)>,
    pub text_offset: Point,
}

impl View for IconConfig {
    type V = IconConfigV;

    open spec fn view(&self) -> IconConfigV {
        IconConfigV {
            sets: self.sets@.map_values(|s: IconSet| (s.first_id, s.path@)),
            text_offset: self.text_offset,
        }
    }
}

/// The configuration without `engine/icons.txt`: one atlas
/// `images/icons/icons.png` from id 0.
pub open spec fn default_icons() -> IconConfigV {
    IconConfigV {
        sets: seq![(0i32, "images/icons/icons.png"@)],
        text_offset: Point { x: 0, y: 0 },
    }
}

impl Default for IconConfig {
    fn default() -> (c: Self)
        ensures
            c@ == default_icons(),
    {
        let mut sets: Vec<IconSet> = Vec::new();
        sets.push(IconSet { first_id: 0, path: string_of(&chars_of("images/icons/icons.png")) });
        let c = IconConfig { sets, text_offset: Point { x: 0, y: 0 } };
        assert(c@.sets =~= seq![(0i32, "images/icons/icons.png"@)]);
        c
    }
}

/// The effect of one global key.
pub open spec fn spec_icon_key(c: IconConfigV, key: Seq<char>, value: Seq<char>) -> Result<
    IconConfigV,
    ErrorV,
> {
    if key == "icon_set"@ {
        let (t1, r1) = spec_pop_token(value);
        match spec_parse_int(token_or_empty(t1)) {
            Err(e) => Err(e),
            Ok(first_id) => Ok(
                IconConfigV {
                    sets: c.sets.push((first_id, token_or_empty(spec_pop_token(r1).0))),
                    ..c
                },
            ),
        }
    } else if key == "text_offset"@ {
        match spec_parse_point(value) {
            Ok(p) => Ok(IconConfigV { text_offset: p, ..c }),
            Err(e) => Err(e),
        }
    } else {
        Ok(c)
    }
}

/// The configuration after the global keys of `entries`, from no sets.
pub open spec fn spec_icons_fold(entries: Seq<EntryV>) -> Result<IconConfigV, ErrorV>
    decreases entries.len(),
{
    if entries.len() == 0 {
        Ok(IconConfigV { sets: Seq::empty(), text_offset: Point { x: 0, y: 0 } })
    } else {
        match spec_icons_fold(entries.drop_last()) {
            Err(e) => Err(e),
            Ok(c) => {
                let e = entries.last();
                if e.section.len() != 0 {
                    Ok(c)
                } else {
                    spec_icon_key(c, e.key, e.value)
                }
            },
        }
    }
}

/// The result of `IconConfig::from_entries`: without any `icon_set` the default.
pub open spec fn spec_icons(entries: Seq<EntryV>) -> Result<IconConfigV, ErrorV> {
    match spec_icons_fold(entries) {
        Err(e) => Err(e),
        Ok(c) => if c.sets.len() == 0 {
            Ok(default_icons())
        } else {
            Ok(c)
        },
    }
}

/// The model of an icon configuration or an error.
pub open spec fn icons_result(r: Result<IconConfig, FlareError>) -> Result<IconConfigV, ErrorV> {
    match r {
        Ok(c) => Ok(c@),
        Err(e) => Err(e@),
    }
}

proof fn lemma_icons_fold_error(entries: Seq<EntryV>, k: int)
    requires
        0 <= k <= entries.len(),
        spec_icons_fold(entries.take(k)) is Err,
    ensures
        spec_icons_fold(entries) == spec_icons_fold(entries.take(k)),
    decreases entries.len() - k,
{
    if k < entries.len() {
        assert(entries.drop_last().take(k) =~= entries.take(k));
        lemma_icons_fold_error(entries.drop_last(), k);
    } else {
        assert(entries.take(k) =~= entries);
    }
}

/// The position of the set that holds `icon_id`: the last set whose first id
/// is at most `icon_id`.
pub open spec fn spec_resolve_set(sets: Seq<(i32, Seq<char>)>, icon_id: i32) -> Option<int>
    decreases sets.len(),
{
    if sets.len() == 0 {
        None
    } else if icon_id >= sets.last().0 {
        Some(sets.len() - 1)
    } else {
        spec_resolve_set(sets.drop_last(), icon_id)
    }
}

impl IconConfig {
    /// Reads the global `icon_set` and `text_offset` keys.
    pub fn from_entries(entries: &[Entry]) -> (r: Result<Self, FlareError>)
        ensures
            icons_result(r) == spec_icons(entries_view(entries@)),
    {
        let ghost ev = entries_view(entries@);
        let mut config = IconConfig { sets: Vec::new(), text_offset: Point { x: 0, y: 0 } };
        let mut i: usize = 0;
        assert(ev.take(0) =~= Seq::<EntryV>::empty());
        assert(config@.sets =~= Seq::<(i32, Seq<char>)>::empty());
        while i < entries.len()
            invariant
                i <= entries.len(),
                ev == entries_view(entries@),
                spec_icons_fold(ev.take(i as int)) == Ok::<IconConfigV, ErrorV>(config@),
            decreases entries.len() - i,
        {
            let e = &entries[i];
            proof {
                assert(ev.take(i + 1).drop_last() =~= ev.take(i as int));
                assert(ev.take(i + 1).last() == e@);
            }
            if e.section.as_str().is_empty() {
                let key = chars_of(e.key.as_str());
                let value = chars_of(e.value.as_str());
                if eq_str(&key, "icon_set") {
                    let (t1, r1) = pop_or_empty(&value);
                    match parse_int_chars(&t1) {
                        Ok(first_id) => {
                            let (path, _) = pop_or_empty(r1);
                            let s = IconSet { first_id, path: string_of(&path) };
                            let ghost before = config@;
                            config.sets.push(s);
                            assert(config@.sets =~= before.sets.push((first_id, path@)));
                        },
                        Err(x) => {
                            proof {
                                lemma_icons_fold_error(ev, i + 1);
                            }
                            return Err(x);
                        },
                    }
                } else if eq_str(&key, "text_offset") {
                    match parse_point_chars(&value) {
                        Ok(p) => config.text_offset = p,
                        Err(x) => {
                            proof {
                                lemma_icons_fold_error(ev, i + 1);
                            }
                            return Err(x);
                        },
                    }
                }
            }
            i += 1;
        }
        assert(ev.take(entries.len() as int) =~= ev);
        if config.sets.len() == 0 {
            return Ok(IconConfig::default());
        }
        Ok(config)
    }

    /// Reads `engine/icons.txt` from its text.
    pub fn parse_str(content: &str) -> (r: Result<Self, FlareError>)
        ensures
            icons_result(r) == match spec_parse_str(content@, "engine/icons.txt"@) {
                Err(e) => Err(e),
                Ok(es) => spec_icons(es),
            },
    {
        match parse_str(content, "engine/icons.txt") {
            Ok(es) => Self::from_entries(es.as_slice()),
            Err(e) => Err(e),
        }
    }

    /// The set that holds `icon_id`: the last one whose first id is at most `icon_id`.
    pub fn resolve_set(&self, icon_id: i32) -> (r: Option<&IconSet>)
        ensures
            match spec_resolve_set(self@.sets, icon_id) {
                Some(i) => r == Some(&self.sets@[i]),
                None => r is None,
            },
    {
        let mut i = self.sets.len();
        assert(self@.sets.take(i as int) =~= self@.sets);
        while i > 0
            invariant
                i <= self.sets.len(),
                spec_resolve_set(self@.sets, icon_id) == spec_resolve_set(self@.sets.take(i as int), icon_id),
            decreases i,
        {
            assert(self@.sets.take(i as int).drop_last() =~= self@.sets.take(i - 1));
            assert(self@.sets[i - 1] == (self.sets@[i - 1].first_id, self.sets@[i - 1].path@));
            if icon_id >= self.sets[i - 1].first_id {
                return Some(&self.sets[i - 1]);
            }
            i -= 1;
        }
        None
    }
}

} // verus!

verus! {

/// The set that holds an icon is the last one whose first id is at most the
/// icon's id; no set holds an icon below every first id.
pub proof fn lemma_resolve_set_is_last_fit(sets: Seq<(i32, Seq<char>)>, icon_id: i32)
    ensures
        spec_resolve_set(sets, icon_id) matches Some(i) ==> {
            &&& 0 <= i < sets.len()
            &&& sets[i].0 <= icon_id
            &&& forall|j: int| i < j < sets.len() ==> #[trigger] sets[j].0 > icon_id
        },
        spec_resolve_set(sets, icon_id) is None ==> forall|j: int|
            0 <= j < sets.len() ==> #[trigger] sets[j].0 > icon_id,
    decreases sets.len(),
{
    if sets.len() > 0 && icon_id < sets.last().0 {
        let rest = sets.drop_last();
        lemma_resolve_set_is_last_fit(rest, icon_id);
        assert forall|j: int| 0 <= j < rest.len() implies #[trigger] sets[j] == rest[j] by {}
    }
}

/// A configuration that has been read always names at least one icon set:
/// without any `icon_set` it is the default atlas from id 0.
pub proof fn lemma_read_icons_have_sets(entries: Seq<EntryV>)
    ensures
        spec_icons(entries) matches Ok(c) ==> c.sets.len() > 0,
        spec_icons_fold(entries) matches Ok(c) && c.sets.len() == 0 ==> spec_icons(entries) == Ok::<
            IconConfigV,
            ErrorV,
        >(default_icons()),
{
}

/// `icon_set=first_id,path` adds, after the sets read before it, the atlas
/// `path` (the second token) for the icons from `first_id` (the first
/// token) on.
pub proof fn lemma_icon_set_key(c: IconConfigV, value: Seq<char>, first_id: i32)
    requires
        int_token(value, 0) == Some(first_id),
    ensures
        spec_icon_key(c, "icon_set"@, value) == Ok::<IconConfigV, ErrorV>(
            IconConfigV { sets: c.sets.push((first_id, token_or_empty(token_at(value, 1)))), ..c },
        ),
{
    assert(rest_after(value, 0) == value);
    lemma_pop_token_at(value, 0);
    lemma_pop_token_at(value, 1);
}

} // verus!
