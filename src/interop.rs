//! Outlines as UFO contours: the kinds of their points, and the order in
//! which each format keeps the start of a contour.

use vstd::prelude::*;
use crate::convert::Number;
use crate::font::{NodeType, NameConversionError, Point, is_valid_glyph_name, valid_glyph_name};
use crate::records::{Node, NodeAttrs, Path};

verus! {

/// The kind of a point of a UFO contour.
#[derive(Clone, Copy, Debug, PartialEq, Eq, Structural)]
pub enum PointKind {
    Move,
    Line,
    OffCurve,
    Curve,
    QCurve,
}

/// A point of a UFO contour.
#[derive(Debug, PartialEq)]
pub struct ContourPoint {
    pub x: Number,
    pub y: Number,
    pub kind: PointKind,
    pub smooth: bool,
    pub name: Option<String>,
}

impl NodeType {
    /// The point kind and smoothness that a node type stands for.
    pub open spec fn point_spec(self) -> (PointKind, bool) {
        match self {
            NodeType::Curve => (PointKind::Curve, false),
            NodeType::CurveSmooth => (PointKind::Curve, true),
            NodeType::Line => (PointKind::Line, false),
            NodeType::LineSmooth => (PointKind::Line, true),
            NodeType::OffCurve => (PointKind::OffCurve, false),
            NodeType::QCurve => (PointKind::QCurve, false),
            NodeType::QCurveSmooth => (PointKind::QCurve, true),
        }
    }

    /// The node type of a point kind; a move is a line.
    pub open spec fn from_point_spec(kind: PointKind, smooth: bool) -> NodeType {
        match kind {
            PointKind::Move => NodeType::Line,
            PointKind::Line => if smooth {
                NodeType::LineSmooth
            } else {
                NodeType::Line
            },
            PointKind::OffCurve => NodeType::OffCurve,
            PointKind::Curve => if smooth {
                NodeType::CurveSmooth
            } else {
                NodeType::Curve
            },
            PointKind::QCurve => if smooth {
                NodeType::QCurveSmooth
            } else {
                NodeType::QCurve
            },
        }
    }

    pub fn to_point_kind(&self) -> (r: (PointKind, bool))
        ensures
            r == self.point_spec(),
    {
        match self {
            NodeType::Curve => (PointKind::Curve, false),
            NodeType::CurveSmooth => (PointKind::Curve, true),
            NodeType::Line => (PointKind::Line, false),
            NodeType::LineSmooth => (PointKind::Line, true),
            NodeType::OffCurve => (PointKind::OffCurve, false),
            NodeType::QCurve => (PointKind::QCurve, false),
            NodeType::QCurveSmooth => (PointKind::QCurve, true),
        }
    }

    pub fn from_point_kind(kind: PointKind, smooth: bool) -> (r: NodeType)
        ensures
            r == NodeType::from_point_spec(kind, smooth),
    {
        match kind {
            PointKind::Move => NodeType::Line,
            PointKind::Line => if smooth {
                NodeType::LineSmooth
            } else {
                NodeType::Line
            },
            PointKind::OffCurve => NodeType::OffCurve,
            PointKind::Curve => if smooth {
                NodeType::CurveSmooth
            } else {
                NodeType::Curve
            },
            PointKind::QCurve => if smooth {
                NodeType::QCurveSmooth
            } else {
                NodeType::QCurve
            },
        }
    }
}

/// The name that a node's attributes give it, if any.
pub open spec fn node_name(n: Node) -> Option<Seq<char>> {
    match n.attr {
        Some(a) => match a.name {
            Some(s) => Some(s@),
            None => None,
        },
        None => None,
    }
}

/// Whether point `p` is node `n` as a UFO point.
pub open spec fn point_of_node(p: ContourPoint, n: Node) -> bool {
    p.x == n.pt.x && p.y == n.pt.y && (p.kind, p.smooth) == n.node_type.point_spec() && match p.name {
        Some(s) => node_name(n) == Some(s@),
        None => node_name(n) is None,
    }
}

/// Whether node `n` is point `p` as a node.
pub open spec fn node_of_point(n: Node, p: ContourPoint) -> bool {
    n.pt.x == p.x && n.pt.y == p.y && n.node_type == NodeType::from_point_spec(p.kind, p.smooth) && match p.name {
        Some(s) => n.attr matches Some(a) && a.name matches Some(t) && t@ == s@ && a.other_stuff@.len() == 0,
        None => n.attr is None,
    }
}

impl Node {
    /// The node of a UFO point; a named point gets attributes with its name.
    pub fn from_point(p: ContourPoint) -> (r: Node)
        ensures
            node_of_point(r, p),
    {
        let node_type = NodeType::from_point_kind(p.kind, p.smooth);
        let attr = match p.name {
            Some(name) => Some(NodeAttrs { name: Some(name), other_stuff: Vec::new() }),
            None => None,
        };
        Node { pt: Point { x: p.x, y: p.y }, node_type, attr }
    }

    /// The UFO point of a node; a name must be a valid glyph name.
    pub fn into_point(self) -> (r: Result<ContourPoint, NameConversionError>)
        ensures
            match node_name(self) {
                Some(s) => if valid_glyph_name(s) {
                    r matches Ok(p) && point_of_node(p, self)
                } else {
                    r is Err
                },
                None => r matches Ok(p) && point_of_node(p, self),
            },
    {
        let ghost n = self;
        let (kind, smooth) = self.node_type.to_point_kind();
        let name = match self.attr {
            Some(a) => a.name,
            None => None,
        };
        if let Some(s) = &name {
            if !is_valid_glyph_name(s.as_str()) {
                return Err(NameConversionError);
            }
        }
        Ok(ContourPoint { x: self.pt.x, y: self.pt.y, kind, smooth, name })
    }
}

impl Path {
    /// The path of a UFO contour. The start node of a closed contour is kept
    /// at the end of the nodes, as font sources store it.
    pub fn from_contour(points: Vec<ContourPoint>, closed: bool) -> (r: Path)
        ensures
            r.attr is None,
            r.closed == closed,
            r.nodes@.len() == points@.len(),
            forall|i: int| 0 <= i < points@.len() ==> node_of_point(
                #[trigger] r.nodes@[i],
                points@[if closed && i + 1 < points@.len() { i + 1 } else if closed { 0 } else { i }],
            ),
    {
        let ghost whole = points@;
        let mut rest = points;
        let n = rest.len();
        let mut nodes: Vec<Node> = Vec::new();
        let mut i: usize = 0;
        while i < n
            invariant
                n == whole.len(),
                0 <= i <= n,
                rest@ == whole.subrange(i as int, n as int),
                nodes@.len() == i,
                forall|k: int| 0 <= k < i ==> node_of_point(#[trigger] nodes@[k], whole[k]),
            decreases n - i,
        {
            let p = rest.remove(0);
            proof {
                assert(p == whole[i as int]);
                assert(rest@ =~= whole.subrange(i + 1, n as int));
            }
            nodes.push(Node::from_point(p));
            i = i + 1;
        }
        let mut path = Path { attr: None, closed, nodes };
        if closed && n > 0 {
            let ghost before = path.nodes@;
            path.rotate_left(1);
            proof {
                assert forall|i: int| 0 <= i < n implies node_of_point(
                    #[trigger] path.nodes@[i],
                    whole[if i + 1 < n { i + 1 } else { 0 }],
                ) by {
                    if i + 1 < n {
                        assert(path.nodes@[i] == before[i + 1]);
                    } else {
                        assert(path.nodes@[i] == before[0]);
                    }
                }
            }
        }
        path
    }

    /// The UFO contour of this path: its points, and whether it is closed.
    /// The start node, kept last, comes first; an open contour starts with a move.
    pub fn into_contour(self) -> (r: Result<(Vec<ContourPoint>, bool), NameConversionError>)
        requires
            !self.closed && self.nodes@.len() > 0 ==> self.nodes@[0].node_type.point_spec().0 == PointKind::Line,
        ensures
            (forall|i: int| 0 <= i < self.nodes@.len() ==> (node_name(#[trigger] self.nodes@[i]) matches Some(s)
                ==> valid_glyph_name(s))) ==> r is Ok,
            r matches Ok((pts, closed)) ==> closed == self.closed && pts@.len() == self.nodes@.len()
                && forall|i: int| 0 <= i < pts@.len() ==> {
                let n = self.nodes@.len() as int;
                let node = self.nodes@[if self.closed && i == 0 { n - 1 } else if self.closed { i - 1 } else { i }];
                let p = #[trigger] pts@[i];
                p.x == node.pt.x && p.y == node.pt.y && p.smooth == node.node_type.point_spec().1
                    && p.kind == (if !self.closed && i == 0 { PointKind::Move } else { node.node_type.point_spec().0 })
                    && match p.name {
                    Some(s) => node_name(node) == Some(s@),
                    None => node_name(node) is None,
                }
            },
    {
        let ghost whole = self.nodes@;
        let closed = self.closed;
        let mut rest = self.nodes;
        let n = rest.len();
        let mut points: Vec<ContourPoint> = Vec::new();
        let mut i: usize = 0;
        while i < n
            invariant
                n == whole.len(),
                whole == self.nodes@,
                closed == self.closed,
                0 <= i <= n,
                rest@ == whole.subrange(i as int, n as int),
                points@.len() == i,
                forall|k: int| 0 <= k < i ==> point_of_node(#[trigger] points@[k], whole[k]),
                forall|k: int| 0 <= k < i ==> (node_name(#[trigger] whole[k]) matches Some(s) ==> valid_glyph_name(s)),
            decreases n - i,
        {
            let node = rest.remove(0);
            proof {
                assert(node == whole[i as int]);
                assert(rest@ =~= whole.subrange(i + 1, n as int));
            }
            match node.into_point() {
                Ok(p) => points.push(p),
                Err(e) => {
                    proof {
                        assert(node_name(whole[i as int]) matches Some(s) && !valid_glyph_name(s));
                    }
                    return Err(e);
                },
            }
            i = i + 1;
        }
        let ghost before = points@;
        if n > 0 {
            if !closed {
                let first = points.remove(0);
                let moved = ContourPoint { kind: PointKind::Move, ..first };
                proof {
                    assert(first == before[0]);
                }
                points.insert(0, moved);
                proof {
                    assert(points@ =~= before.update(0, moved));
                }
            } else {
                let last = points.pop().unwrap();
                proof {
                    assert(last == before[n - 1]);
                }
                points.insert(0, last);
                proof {
                    assert(points@ =~= seq![last] + before.drop_last());
                    assert forall|i: int| 0 < i < n implies #[trigger] points@[i] == before[i - 1] by {
                        assert((seq![last] + before.drop_last())[i] == before.drop_last()[i - 1]);
                    }
                }
            }
        }
        Ok((points, closed))
    }
}

} // verus!
