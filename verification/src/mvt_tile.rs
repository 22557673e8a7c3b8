//! Mapbox vector tiles, decoded with `geozero`'s protobuf types into plain values.
//! Floating-point tag values are carried as their bit patterns.
use vstd::prelude::*;
use geozero::mvt::{self, Message};
use crate::vector_tile::str_eq;

verus! {

/// A tag value of a layer: at most one of the fields is set by a well-formed tile.
#[derive(Clone, Debug, PartialEq)]
pub struct MvtValue {
    pub string_value: Option<String>,
    /// The bits of an `f32` value.
    pub float_bits: Option<u32>,
    /// The bits of an `f64` value.
    pub double_bits: Option<u64>,
    pub int_value: Option<i64>,
    pub uint_value: Option<u64>,
    pub sint_value: Option<i64>,
    pub bool_value: Option<bool>,
}

#[verifier::external_type_specification]
#[verifier::external_body]
pub struct ExFeature(mvt::tile::Feature);

/// A feature: its tags (pairs of key index and value index into its layer), its
/// encoded geometry commands, and the decoded feature itself, which also carries
/// the geometry type (point, line or polygon) the renderer needs to read the
/// commands. Nothing is stated of `source`.
#[derive(Debug)]
pub struct MvtFeature {
    pub id: Option<u64>,
    pub tags: Vec<u32>,
    pub geometry: Vec<u32>,
    pub source: mvt::tile::Feature,
}

#[derive(Debug)]
pub struct MvtLayer {
    pub version: u32,
    pub name: String,
    pub keys: Vec<String>,
    pub values: Vec<MvtValue>,
    pub extent: Option<u32>,
    pub features: Vec<MvtFeature>,
}

#[derive(Debug)]
pub struct MvtTile {
    pub layers: Vec<MvtLayer>,
}

pub struct MvtValueView {
    pub string_value: Option<Seq<char>>,
    pub float_bits: Option<u32>,
    pub double_bits: Option<u64>,
    pub int_value: Option<i64>,
    pub uint_value: Option<u64>,
    pub sint_value: Option<i64>,
    pub bool_value: Option<bool>,
}

pub struct MvtFeatureView {
    pub id: Option<u64>,
    pub tags: Seq<u32>,
    pub geometry: Seq<u32>,
}

pub struct MvtLayerView {
    pub version: u32,
    pub name: Seq<char>,
    pub keys: Seq<Seq<char>>,
    pub values: Seq<MvtValueView>,
    pub extent: Option<u32>,
    pub features: Seq<MvtFeatureView>,
}

pub struct MvtTileView {
    pub layers: Seq<MvtLayerView>,
}

impl View for MvtValue {
    type V = MvtValueView;

    open spec fn view(&self) -> MvtValueView {
        MvtValueView {
            string_value: match self.string_value {
                Some(s) => Some(s@),
                None => None,
            },
            float_bits: self.float_bits,
            double_bits: self.double_bits,
            int_value: self.int_value,
            uint_value: self.uint_value,
            sint_value: self.sint_value,
            bool_value: self.bool_value,
        }
    }
}

impl View for MvtFeature {
    type V = MvtFeatureView;

    open spec fn view(&self) -> MvtFeatureView {
        MvtFeatureView { id: self.id, tags: self.tags@, geometry: self.geometry@ }
    }
}

impl View for MvtLayer {
    type V = MvtLayerView;

    open spec fn view(&self) -> MvtLayerView {
        MvtLayerView {
            version: self.version,
            name: self.name@,
            keys: self.keys@.map_values(|k: String| k@),
            values: self.values@.map_values(|v: MvtValue| v@),
            extent: self.extent,
            features: self.features@.map_values(|f: MvtFeature| f@),
        }
    }
}

impl View for MvtTile {
    type V = MvtTileView;

    open spec fn view(&self) -> MvtTileView {
        MvtTileView { layers: self.layers@.map_values(|l: MvtLayer| l@) }
    }
}

/// What `geozero::mvt::Tile::decode` (protobuf decoding by `prost`) makes of
/// `bytes`, or nothing when they are not a valid encoded tile.
pub uninterp spec fn decoded_mvt(bytes: Seq<u8>) -> Option<MvtTileView>;

/// Calls `geozero::mvt::Tile::decode` and converts the tile, field by field, into
/// plain values. The result is the one `decoded_mvt` names.
#[verifier::external_body]
pub(crate) fn decode_mvt(bytes: &[u8]) -> (r: Option<MvtTile>)
    ensures
        r is None <==> decoded_mvt(bytes@) is None,
        r matches Some(t) ==> t@ == decoded_mvt(bytes@).unwrap(),
{
    Some(MvtTile { layers: mvt::Tile::decode(bytes).ok()?.layers.into_iter().map(|l| MvtLayer {
        version: l.version, name: l.name, keys: l.keys, extent: l.extent,
        values: l.values.into_iter().map(|mvt::tile::Value {
            string_value, float_value, double_value, int_value, uint_value, sint_value, bool_value
        }| MvtValue {
            float_bits: float_value.map(|x| x.to_bits()), double_bits: double_value.map(|x| x.to_bits()),
            string_value, int_value, uint_value, sint_value, bool_value
        }).collect(),
        features: l.features.into_iter().map(|f| MvtFeature {
            source: f.clone(), id: f.id, tags: f.tags, geometry: f.geometry
        }).collect()
    }).collect() })
}

/// Whether some layer of `t` is called `name`.
pub open spec fn has_layer(t: MvtTileView, name: Seq<char>) -> bool {
    exists|j: int| 0 <= j < t.layers.len() && #[trigger] t.layers[j].name == name
}

/// Layer `i` is the first layer of `t` called `name`.
pub open spec fn is_first_layer(t: MvtTileView, name: Seq<char>, i: int) -> bool {
    &&& 0 <= i < t.layers.len()
    &&& t.layers[i].name == name
    &&& forall|j: int| 0 <= j < i ==> #[trigger] t.layers[j].name != name
}

/// The index of the first layer of `t` called `name`, if any.
pub fn find_layer(t: &MvtTile, name: &str) -> (r: Option<usize>)
    ensures
        match r {
            Some(i) => is_first_layer(t@, name@, i as int),
            None => !has_layer(t@, name@),
        },
{
    let mut i: usize = 0;
    while i < t.layers.len()
        invariant
            i <= t.layers@.len(),
            forall|j: int| 0 <= j < i ==> #[trigger] t@.layers[j].name != name@,
        decreases t.layers@.len() - i,
    {
        assert(t@.layers[i as int].name == t.layers@[i as int].name@);
        if str_eq(t.layers[i].name.as_str(), name) {
            return Some(i);
        }
        i = i + 1;
    }
    None
}

/// The index of the layer that holds the buildings: the first one called `buildings`.
pub fn buildings_layer(t: &MvtTile) -> (r: Option<usize>)
    ensures
        match r {
            Some(i) => is_first_layer(t@, "buildings"@, i as int),
            None => !has_layer(t@, "buildings"@),
        },
{
    find_layer(t, "buildings")
}

/// Why a vector tile cannot be read.
#[derive(Clone, Copy, Debug, PartialEq, Eq, Structural)]
pub enum VectorTileError {
    /// The bytes are not an encoded vector tile.
    Undecodable,
    /// The tile has no `buildings` layer.
    NoBuildingsLayer,
}

/// Decodes a downloaded vector tile and finds its `buildings` layer: the tile and
/// the layer's index, or why there is none.
pub fn decode_vector_tile(bytes: &[u8]) -> (r: Result<(MvtTile, usize), VectorTileError>)
    ensures
        match decoded_mvt(bytes@) {
            None => r matches Err(e) && e == VectorTileError::Undecodable,
            Some(v) => if has_layer(v, "buildings"@) {
                r matches Ok((t, i)) && t@ == v && is_first_layer(v, "buildings"@, i as int)
            } else {
                r matches Err(e) && e == VectorTileError::NoBuildingsLayer
            },
        },
{
    let tile = match decode_mvt(bytes) {
        Some(t) => t,
        None => {
            return Err(VectorTileError::Undecodable);
        },
    };
    match buildings_layer(&tile) {
        Some(i) => Ok((tile, i)),
        None => Err(VectorTileError::NoBuildingsLayer),
    }
}

} // verus!
