//! The plain data types of the spatial tools: the geometry kind named
//! on the command line, a coordinate reference system specification,
//! and the reader/writer pair the area tool runs over.

use vstd::prelude::*;

use crate::text::{cmp_chars, to_chars, Rel};

verus! {

/// A geometry kind named on the command line.
#[derive(Debug, PartialEq, Eq, Structural, Clone, Copy)]
pub enum GeometryType {
    Point,
    Line,
    Polygon,
    MultiPoint,
    MultiLine,
    MultiPolygon,
}

/// The geometry kind a name denotes.
pub open spec fn geometry_type_of(s: Seq<char>) -> Option<GeometryType> {
    if s == seq!['p', 'o', 'i', 'n', 't'] {
        Some(GeometryType::Point)
    } else if s == seq!['l', 'i', 'n', 'e'] {
        Some(GeometryType::Line)
    } else if s == seq!['p', 'o', 'l', 'y', 'g', 'o', 'n'] {
        Some(GeometryType::Polygon)
    } else if s == seq!['m', 'u', 'l', 't', 'i', 'p', 'o', 'i', 'n', 't'] {
        Some(GeometryType::MultiPoint)
    } else if s == seq!['m', 'u', 'l', 't', 'i', 'l', 'i', 'n', 'e'] {
        Some(GeometryType::MultiLine)
    } else if s == seq!['m', 'u', 'l', 't', 'i', 'p', 'o', 'l', 'y', 'g', 'o', 'n'] {
        Some(GeometryType::MultiPolygon)
    } else {
        None
    }
}

impl GeometryType {
    /// The kind a name denotes, if any.
    pub fn from_str(string: &str) -> (r: Option<GeometryType>)
        ensures
            r == geometry_type_of(string@),
    {
        let cs = to_chars(string);
        proof {
            reveal_strlit("point");
            reveal_strlit("line");
            reveal_strlit("polygon");
            reveal_strlit("multipoint");
            reveal_strlit("multiline");
            reveal_strlit("multipolygon");
            assert("point"@ =~= seq!['p', 'o', 'i', 'n', 't']);
            assert("line"@ =~= seq!['l', 'i', 'n', 'e']);
            assert("polygon"@ =~= seq!['p', 'o', 'l', 'y', 'g', 'o', 'n']);
            assert("multipoint"@ =~= seq!['m', 'u', 'l', 't', 'i', 'p', 'o', 'i', 'n', 't']);
            assert("multiline"@ =~= seq!['m', 'u', 'l', 't', 'i', 'l', 'i', 'n', 'e']);
            assert("multipolygon"@ =~= seq![
                'm',
                'u',
                'l',
                't',
                'i',
                'p',
                'o',
                'l',
                'y',
                'g',
                'o',
                'n',
            ]);
        }
        let p0 = to_chars("point");
        if cmp_chars(&cs, &p0) == Rel::Equal {
            return Some(GeometryType::Point);
        }
        let p1 = to_chars("line");
        if cmp_chars(&cs, &p1) == Rel::Equal {
            return Some(GeometryType::Line);
        }
        let p2 = to_chars("polygon");
        if cmp_chars(&cs, &p2) == Rel::Equal {
            return Some(GeometryType::Polygon);
        }
        let p3 = to_chars("multipoint");
        if cmp_chars(&cs, &p3) == Rel::Equal {
            return Some(GeometryType::MultiPoint);
        }
        let p4 = to_chars("multiline");
        if cmp_chars(&cs, &p4) == Rel::Equal {
            return Some(GeometryType::MultiLine);
        }
        let p5 = to_chars("multipolygon");
        if cmp_chars(&cs, &p5) == Rel::Equal {
            return Some(GeometryType::MultiPolygon);
        }
        proof {
            assert(cs@ =~= string@);
        }
        None
    }
}

/// A coordinate reference system, named by its EPSG code or by a
/// projection string.
#[derive(Debug, PartialEq)]
pub enum CrsSpecification {
    Epsg(u32),
    Proj(String),
}

/// The reader and writer the area tool runs over.
#[derive(Debug)]
pub struct NdjsonSpatialArea<IN, OUT> {
    std_in: IN,
    std_out: OUT,
}

impl<IN, OUT> NdjsonSpatialArea<IN, OUT> {
    /// The source this pair wraps.
    pub closed spec fn spec_source(&self) -> IN {
        self.std_in
    }

    /// The sink this pair wraps.
    pub closed spec fn spec_sink(&self) -> OUT {
        self.std_out
    }

    /// Pairs a source and a sink.
    pub fn new(std_in: IN, std_out: OUT) -> (r: NdjsonSpatialArea<IN, OUT>)
        ensures
            r.spec_source() == std_in,
            r.spec_sink() == std_out,
    {
        NdjsonSpatialArea { std_in, std_out }
    }

    /// Hands the source and the sink back.
    pub fn into_inner(self) -> (r: (IN, OUT))
        ensures
            r.0 == self.spec_source(),
            r.1 == self.spec_sink(),
    {
        (self.std_in, self.std_out)
    }
}

} // verus!
