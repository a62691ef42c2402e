use vstd::prelude::*;

use crate::error::FlareError;
use crate::parser::{entries_view, parse_str, spec_parse_str, Entry, EntryV};
use crate::text::{chars_of, eq_str};

verus! {

/// Which scroll speed an entry of a parallax layer sets.
#[derive(Debug, Clone, Copy, PartialEq, Eq, Structural)]
pub enum SpeedKey {
    /// `speed`: scrolling relative to the camera.
    Speed,
    /// `fixed_speed`: camera-independent scrolling `x, y`.
    FixedSpeed,
}

/// One scrolling background layer (a `[layer]` section).
///
/// Its speeds are decimal numbers. They are kept as the text of each `speed`
/// and `fixed_speed` entry, in file order, for a reader that works in
/// floating point: the last entry of each kind sets that speed, and any of
/// them may fail to read as a number.
#[derive(Debug, Clone, PartialEq, Eq)]
pub struct ParallaxLayer {
    pub image: String,
    pub speed_entries: Vec<(SpeedKey, String)>,
    pub map_layer: String,
}

/// Mathematical model of a [`ParallaxLayer`].
pub struct ParallaxLayerV {
    pub image: Seq<char>,
    pub speed_entries: Seq<(SpeedKey, Seq<char>)>,
    pub map_layer: Seq<char>,
}

impl View for ParallaxLayer {
    type V = ParallaxLayerV;

    open spec fn view(&self) -> ParallaxLayerV {
        ParallaxLayerV {
            image: self.image@,
            speed_entries: self.speed_entries@.map_values(|p: (SpeedKey, String)| (p.0, p.1@)),
            map_layer: self.map_layer@,
        }
    }
}

/// The layers of a parallax definition, in file order.
#[derive(Debug, Clone, PartialEq, Eq, Default)]
pub struct ParallaxLayers {
    pub layers: Vec<ParallaxLayer>,
}

/// The models of a sequence of layers.
pub open spec fn parallax_view(v: Seq<ParallaxLayer>) -> Seq<ParallaxLayerV> {
    v.map_values(|l: ParallaxLayer| l@)
}

impl View for ParallaxLayers {
    type V = Seq<ParallaxLayerV>;

    open spec fn view(&self) -> Seq<ParallaxLayerV> {
        parallax_view(self.layers@)
    }
}

/// A layer just opened by its header.
pub open spec fn empty_layer() -> ParallaxLayerV {
    ParallaxLayerV { image: Seq::empty(), speed_entries: Seq::empty(), map_layer: Seq::empty() }
}

/// The effect of one entry on the open layer.
pub open spec fn spec_layer_key(l: ParallaxLayerV, key: Seq<char>, value: Seq<char>) -> ParallaxLayerV {
    if key == "image"@ {
        ParallaxLayerV { image: value, ..l }
    } else if key == "speed"@ {
        ParallaxLayerV { speed_entries: l.speed_entries.push((SpeedKey::Speed, value)), ..l }
    } else if key == "fixed_speed"@ {
        ParallaxLayerV { speed_entries: l.speed_entries.push((SpeedKey::FixedSpeed, value)), ..l }
    } else if key == "map_layer"@ {
        ParallaxLayerV { map_layer: value, ..l }
    } else {
        l
    }
}

/// The closed layers and the open one after reading `entries`: a `[layer]`
/// header closes the open layer and opens a new one; entries before the first
/// header are passed over.
pub open spec fn spec_parallax_fold(entries: Seq<EntryV>) -> (Seq<ParallaxLayerV>, Option<ParallaxLayerV>)
    decreases entries.len(),
{
    if entries.len() == 0 {
        (Seq::empty(), None)
    } else {
        let (done, open) = spec_parallax_fold(entries.drop_last());
        let e = entries.last();
        if e.new_section && e.section == "layer"@ {
            (
                match open {
                    Some(l) => done.push(l),
                    None => done,
                },
                Some(empty_layer()),
            )
        } else {
            match open {
                None => (done, None),
                Some(l) => (done, Some(spec_layer_key(l, e.key, e.value))),
            }
        }
    }
}

/// The layers of `entries`, the open one closed at the end.
pub open spec fn spec_parallax(entries: Seq<EntryV>) -> Seq<ParallaxLayerV> {
    let (done, open) = spec_parallax_fold(entries);
    match open {
        Some(l) => done.push(l),
        None => done,
    }
}

/// The model of an optional layer.
pub open spec fn open_view(o: Option<ParallaxLayer>) -> Option<ParallaxLayerV> {
    match o {
        Some(l) => Some(l@),
        None => None,
    }
}

fn apply_key(l: ParallaxLayer, key: &[char], value: &String) -> (r: ParallaxLayer)
    ensures
        r@ == spec_layer_key(l@, key@, value@),
{
    let mut l = l;
    if eq_str(key, "image") {
        l.image = value.clone();
    } else if eq_str(key, "speed") {
        let ghost before = l@;
        l.speed_entries.push((SpeedKey::Speed, value.clone()));
        assert(l@.speed_entries =~= before.speed_entries.push((SpeedKey::Speed, value@)));
    } else if eq_str(key, "fixed_speed") {
        let ghost before = l@;
        l.speed_entries.push((SpeedKey::FixedSpeed, value.clone()));
        assert(l@.speed_entries =~= before.speed_entries.push((SpeedKey::FixedSpeed, value@)));
    } else if eq_str(key, "map_layer") {
        l.map_layer = value.clone();
    }
    l
}

impl ParallaxLayers {
    /// Groups the entries of a parallax definition into its layers.
    pub fn from_entries(entries: &[Entry]) -> (r: Self)
        ensures
            r@ == spec_parallax(entries_view(entries@)),
    {
        let ghost ev = entries_view(entries@);
        let mut layers: Vec<ParallaxLayer> = Vec::new();
        let mut current: Option<ParallaxLayer> = None;
        let mut i: usize = 0;
        assert(ev.take(0) =~= Seq::<EntryV>::empty());
        assert(parallax_view(layers@) =~= Seq::<ParallaxLayerV>::empty());
        while i < entries.len()
            invariant
                i <= entries.len(),
                ev == entries_view(entries@),
                spec_parallax_fold(ev.take(i as int)) == (parallax_view(layers@), open_view(current)),
            decreases entries.len() - i,
        {
            let e = &entries[i];
            proof {
                assert(ev.take(i + 1).drop_last() =~= ev.take(i as int));
                assert(ev.take(i + 1).last() == e@);
            }
            let cur = current;
            if e.new_section && eq_str(&chars_of(e.section.as_str()), "layer") {
                match cur {
                    Some(l) => {
                        let ghost before = layers@;
                        layers.push(l);
                        assert(parallax_view(layers@) =~= parallax_view(before).push(l@));
                    },
                    None => {},
                }
                let fresh = ParallaxLayer {
                    image: String::new(),
                    speed_entries: Vec::new(),
                    map_layer: String::new(),
                };
                assert(fresh@.speed_entries =~= Seq::<(SpeedKey, Seq<char>)>::empty());
                current = Some(fresh);
            } else {
                current = match cur {
                    None => None,
                    Some(l) => Some(apply_key(l, &chars_of(e.key.as_str()), &e.value)),
                };
            }
            i += 1;
        }
        assert(ev.take(entries.len() as int) =~= ev);
        match current {
            Some(l) => {
                let ghost before = layers@;
                layers.push(l);
                assert(parallax_view(layers@) =~= parallax_view(before).push(l@));
            },
            None => {},
        }
        ParallaxLayers { layers }
    }

    /// Reads a parallax definition from its text.
    pub fn parse_str(content: &str) -> (r: Result<Self, FlareError>)
        ensures
            match r {
                Ok(p) => spec_parse_str(content@, "parallax.txt"@) matches Ok(es) && p@ == spec_parallax(es),
                Err(e) => spec_parse_str(content@, "parallax.txt"@) == Err::<Seq<EntryV>, _>(e@),
            },
    {
        match parse_str(content, "parallax.txt") {
            Ok(es) => Ok(Self::from_entries(es.as_slice())),
            Err(e) => Err(e),
        }
    }
}

} // verus!

verus! {

/// The number of `[layer]` headers among `entries`.
pub open spec fn layer_headers(entries: Seq<EntryV>) -> nat
    decreases entries.len(),
{
    if entries.len() == 0 {
        0
    } else {
        layer_headers(entries.drop_last()) + if entries.last().new_section && entries.last().section
            == "layer"@ {
            1nat
        } else {
            0nat
        }
    }
}

proof fn lemma_fold_counts(entries: Seq<EntryV>)
    ensures
        spec_parallax_fold(entries).0.len() + (if spec_parallax_fold(entries).1 is Some {
            1nat
        } else {
            0nat
        }) == layer_headers(entries),
        spec_parallax_fold(entries).1 is None <==> layer_headers(entries) == 0,
    decreases entries.len(),
{
    if entries.len() > 0 {
        lemma_fold_counts(entries.drop_last());
    }
}

/// Every `[layer]` header makes exactly one layer; entries before the first
/// header make none.
pub proof fn lemma_one_layer_per_header(entries: Seq<EntryV>)
    ensures
        spec_parallax(entries).len() == layer_headers(entries),
{
    lemma_fold_counts(entries);
}

/// In a layer, `image=` and `map_layer=` set the image and the map layer it
/// follows, and each `speed=` or `fixed_speed=` line is kept, after those
/// before it, under its own key; other keys change nothing.
pub proof fn lemma_layer_keys(l: ParallaxLayerV, value: Seq<char>)
    ensures
        spec_layer_key(l, "image"@, value) == (ParallaxLayerV { image: value, ..l }),
        spec_layer_key(l, "map_layer"@, value) == (ParallaxLayerV { map_layer: value, ..l }),
        spec_layer_key(l, "speed"@, value) == (ParallaxLayerV {
            speed_entries: l.speed_entries.push((SpeedKey::Speed, value)),
            ..l
        }),
        spec_layer_key(l, "fixed_speed"@, value) == (ParallaxLayerV {
            speed_entries: l.speed_entries.push((SpeedKey::FixedSpeed, value)),
            ..l
        }),
        forall|k: Seq<char>|
            k != "image"@ && k != "map_layer"@ && k != "speed"@ && k != "fixed_speed"@ ==> #[trigger] spec_layer_key(
                l,
                k,
                value,
            ) == l,
{
    reveal_strlit("image");
    reveal_strlit("speed");
    reveal_strlit("fixed_speed");
    reveal_strlit("map_layer");
    assert("image"@[0] != "speed"@[0]);
    assert("image"@.len() != "fixed_speed"@.len());
    assert("image"@.len() != "map_layer"@.len());
    assert("speed"@.len() != "fixed_speed"@.len());
    assert("speed"@.len() != "map_layer"@.len());
    assert("fixed_speed"@.len() != "map_layer"@.len());
}

} // verus!
