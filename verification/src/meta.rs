//! Metadata that a slicer leaves in the comments of a program. Numbers are
//! held as the bit patterns of single-precision values; the caller reads
//! them from the text.
use crate::comments::{key_of, meta_key, parse_usize, parsed_number, MetaKey};
use vstd::prelude::*;

verus! {

/// A typed comment: its key, its value, and the number that the value
/// stands for under the key's rule, if it stands for one.
pub struct MetaComment {
    pub prefix: Vec<u8>,
    pub value: Vec<u8>,
    pub number: Option<u32>,
}

/// What the comments of a program say about it.
pub struct GCodeMeta {
    pub flavor: Option<Vec<u8>>,
    pub time: Option<u32>,
    pub filament_used: Option<u32>,
    pub layer_height: Option<u32>,
    /// The smallest and the largest corner of what the program prints.
    pub bounding_box: Option<([u32; 3], [u32; 3])>,
    pub target_machine: Option<Vec<u8>>,
    pub layer_count: Option<usize>,
}

/// The metadata read so far, as a mathematical value. The six bounds are
/// kept apart until all comments are read.
pub struct MetaView {
    pub flavor: Option<Seq<u8>>,
    pub time: Option<u32>,
    pub filament_used: Option<u32>,
    pub layer_height: Option<u32>,
    pub min: (Option<u32>, Option<u32>, Option<u32>),
    pub max: (Option<u32>, Option<u32>, Option<u32>),
    pub target_machine: Option<Seq<u8>>,
    pub layer_count: Option<usize>,
}

/// `b` where it holds a value, else `a`.
pub open spec fn later<T>(a: Option<T>, b: Option<T>) -> Option<T> {
    if b is Some {
        b
    } else {
        a
    }
}

/// No metadata at all.
pub open spec fn no_meta() -> MetaView {
    MetaView {
        flavor: None,
        time: None,
        filament_used: None,
        layer_height: None,
        min: (None, None, None),
        max: (None, None, None),
        target_machine: None,
        layer_count: None,
    }
}

/// The metadata after one more comment. A comment with an unknown key or
/// with a value that does not fit its key changes nothing; a later value
/// replaces an earlier one.
pub open spec fn meta_step(
    m: MetaView,
    prefix: Seq<u8>,
    value: Seq<u8>,
    number: Option<u32>,
) -> MetaView {
    match key_of(prefix) {
        MetaKey::Flavor => if value.len() > 0 {
            MetaView { flavor: Some(value), ..m }
        } else {
            m
        },
        MetaKey::Time => MetaView { time: later(m.time, number), ..m },
        MetaKey::FilamentUsed => MetaView { filament_used: later(m.filament_used, number), ..m },
        MetaKey::LayerHeight => MetaView { layer_height: later(m.layer_height, number), ..m },
        MetaKey::MinX => MetaView { min: (later(m.min.0, number), m.min.1, m.min.2), ..m },
        MetaKey::MinY => MetaView { min: (m.min.0, later(m.min.1, number), m.min.2), ..m },
        MetaKey::MinZ => MetaView { min: (m.min.0, m.min.1, later(m.min.2, number)), ..m },
        MetaKey::MaxX => MetaView { max: (later(m.max.0, number), m.max.1, m.max.2), ..m },
        MetaKey::MaxY => MetaView { max: (m.max.0, later(m.max.1, number), m.max.2), ..m },
        MetaKey::MaxZ => MetaView { max: (m.max.0, m.max.1, later(m.max.2, number)), ..m },
        MetaKey::TargetMachine => MetaView { target_machine: Some(value), ..m },
        MetaKey::LayerCount => MetaView {
            layer_count: later(m.layer_count, parsed_number(value)),
            ..m
        },
        MetaKey::Unknown => m,
    }
}

/// The metadata after all comments, in order.
pub open spec fn meta_fold(comments: Seq<MetaComment>) -> MetaView
    decreases comments.len(),
{
    if comments.len() == 0 {
        no_meta()
    } else {
        meta_step(
            meta_fold(comments.drop_last()),
            comments.last().prefix@,
            comments.last().value@,
            comments.last().number,
        )
    }
}

/// The bounding box, where all six bounds are known.
pub open spec fn box_of(m: MetaView) -> Option<((u32, u32, u32), (u32, u32, u32))> {
    if m.min.0 is Some && m.min.1 is Some && m.min.2 is Some && m.max.0 is Some && m.max.1 is Some
        && m.max.2 is Some {
        Some(((m.min.0->0, m.min.1->0, m.min.2->0), (m.max.0->0, m.max.1->0, m.max.2->0)))
    } else {
        None
    }
}

/// A text, if there is one, as a sequence of bytes.
pub open spec fn text_of(t: Option<Vec<u8>>) -> Option<Seq<u8>> {
    match t {
        Some(v) => Some(v@),
        None => None,
    }
}

/// A pair of corners as a pair of triples.
pub open spec fn corners_of(b: Option<([u32; 3], [u32; 3])>) -> Option<
    ((u32, u32, u32), (u32, u32, u32)),
> {
    match b {
        Some(c) => Some(((c.0@[0], c.0@[1], c.0@[2]), (c.1@[0], c.1@[1], c.1@[2]))),
        None => None,
    }
}

fn copy_bytes(text: &Vec<u8>) -> (r: Vec<u8>)
    ensures
        r@ == text@,
{
    let mut out: Vec<u8> = Vec::new();
    let mut i: usize = 0;
    while i < text.len()
        invariant
            i <= text@.len(),
            out@ == text@.subrange(0, i as int),
        decreases text@.len() - i,
    {
        out.push(text[i]);
        proof {
            assert(out@ =~= text@.subrange(0, i as int + 1));
        }
        i = i + 1;
    }
    proof {
        assert(text@.subrange(0, text@.len() as int) == text@);
    }
    out
}

impl GCodeMeta {
    /// Reads the metadata from the typed comments of a program. Recognized
    /// keys are `FLAVOR`, `TIME`, `Filament used`, `Layer height`, `MINX` to
    /// `MAXZ`, `TARGET_MACHINE.NAME` and `LAYER_COUNT`; any other key is
    /// ignored. Of several values for one key the last valid one counts.
    /// The bounding box is known only if all six of its bounds are.
    pub fn from_comments(comments: &Vec<MetaComment>) -> (r: GCodeMeta)
        ensures
            text_of(r.flavor) == meta_fold(comments@).flavor,
            r.time == meta_fold(comments@).time,
            r.filament_used == meta_fold(comments@).filament_used,
            r.layer_height == meta_fold(comments@).layer_height,
            corners_of(r.bounding_box) == box_of(meta_fold(comments@)),
            text_of(r.target_machine) == meta_fold(comments@).target_machine,
            r.layer_count == meta_fold(comments@).layer_count,
    {
        let mut flavor: Option<Vec<u8>> = None;
        let mut time: Option<u32> = None;
        let mut filament_used: Option<u32> = None;
        let mut layer_height: Option<u32> = None;
        let mut target_machine: Option<Vec<u8>> = None;
        let mut layer_count: Option<usize> = None;

        let mut minx: Option<u32> = None;
        let mut miny: Option<u32> = None;
        let mut minz: Option<u32> = None;
        let mut maxx: Option<u32> = None;
        let mut maxy: Option<u32> = None;
        let mut maxz: Option<u32> = None;

        let mut i: usize = 0;
        proof {
            assert(comments@.subrange(0, 0).len() == 0);
        }
        while i < comments.len()
            invariant
                i <= comments@.len(),
                meta_fold(comments@.subrange(0, i as int)) == (MetaView {
                    flavor: text_of(flavor),
                    time: time,
                    filament_used: filament_used,
                    layer_height: layer_height,
                    min: (minx, miny, minz),
                    max: (maxx, maxy, maxz),
                    target_machine: text_of(target_machine),
                    layer_count: layer_count,
                }),
            decreases comments@.len() - i,
        {
            let entry = &comments[i];
            proof {
                let s = comments@.subrange(0, i as int + 1);
                assert(s.drop_last() == comments@.subrange(0, i as int));
                assert(s.last() == comments@[i as int]);
            }
            match meta_key(entry.prefix.as_slice()) {
                MetaKey::Flavor => {
                    if entry.value.len() > 0 {
                        flavor = Some(copy_bytes(&entry.value));
                    }
                },
                MetaKey::Time => {
                    if entry.number.is_some() {
                        time = entry.number;
                    }
                },
                MetaKey::FilamentUsed => {
                    if entry.number.is_some() {
                        filament_used = entry.number;
                    }
                },
                MetaKey::LayerHeight => {
                    if entry.number.is_some() {
                        layer_height = entry.number;
                    }
                },
                MetaKey::MinX => {
                    if entry.number.is_some() {
                        minx = entry.number;
                    }
                },
                MetaKey::MinY => {
                    if entry.number.is_some() {
                        miny = entry.number;
                    }
                },
                MetaKey::MinZ => {
                    if entry.number.is_some() {
                        minz = entry.number;
                    }
                },
                MetaKey::MaxX => {
                    if entry.number.is_some() {
                        maxx = entry.number;
                    }
                },
                MetaKey::MaxY => {
                    if entry.number.is_some() {
                        maxy = entry.number;
                    }
                },
                MetaKey::MaxZ => {
                    if entry.number.is_some() {
                        maxz = entry.number;
                    }
                },
                MetaKey::TargetMachine => {
                    target_machine = Some(copy_bytes(&entry.value));
                },
                MetaKey::LayerCount => {
                    let count = parse_usize(entry.value.as_slice());
                    if count.is_some() {
                        layer_count = count;
                    }
                },
                MetaKey::Unknown => {},
            }
            i = i + 1;
        }
        proof {
            assert(comments@.subrange(0, comments@.len() as int) == comments@);
        }

        let bounding_box = match (minx, miny, minz, maxx, maxy, maxz) {
            (Some(x0), Some(y0), Some(z0), Some(x1), Some(y1), Some(z1)) => Some(
                ([x0, y0, z0], [x1, y1, z1]),
            ),
            _ => None,
        };

        GCodeMeta {
            flavor,
            time,
            filament_used,
            layer_height,
            bounding_box,
            target_machine,
            layer_count,
        }
    }
}

} // verus!
