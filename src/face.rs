use vstd::prelude::*;
use crate::index::{Vec3i, is_face_offset};

verus! {

/// The six directions a block face can point to.
#[derive(Clone, Copy, Debug, PartialEq, Eq, Hash, Structural)]
pub enum FaceDirection {
    Top,
    Bottom,
    West,
    East,
    North,
    South,
}

/// Texture slot of a face: top, bottom, or any of the four sides.
#[derive(Clone, Copy, Debug, PartialEq, Eq, Hash, Structural)]
pub enum SideDirection {
    Top,
    Bottom,
    Side,
}

/// Unit offset of a face direction.
pub open spec fn face_offset(f: FaceDirection) -> Vec3i {
    match f {
        FaceDirection::Top => Vec3i { x: 0, y: 1, z: 0 },
        FaceDirection::Bottom => Vec3i { x: 0, y: -1i32, z: 0 },
        FaceDirection::West => Vec3i { x: -1i32, y: 0, z: 0 },
        FaceDirection::East => Vec3i { x: 1, y: 0, z: 0 },
        FaceDirection::North => Vec3i { x: 0, y: 0, z: -1i32 },
        FaceDirection::South => Vec3i { x: 0, y: 0, z: 1 },
    }
}

/// One of the six unit vectors along an axis.
pub open spec fn is_unit_dir(d: Vec3i) -> bool {
    is_face_offset(d) && !(d.x == 0 && d.y == 0 && d.z == 0)
}

/// Position of a face direction in the fixed order Top, Bottom, West, East, North, South.
pub open spec fn face_index(f: FaceDirection) -> int {
    match f {
        FaceDirection::Top => 0,
        FaceDirection::Bottom => 1,
        FaceDirection::West => 2,
        FaceDirection::East => 3,
        FaceDirection::North => 4,
        FaceDirection::South => 5,
    }
}

pub open spec fn face_of_index(i: int) -> FaceDirection {
    if i == 0 {
        FaceDirection::Top
    } else if i == 1 {
        FaceDirection::Bottom
    } else if i == 2 {
        FaceDirection::West
    } else if i == 3 {
        FaceDirection::East
    } else if i == 4 {
        FaceDirection::North
    } else {
        FaceDirection::South
    }
}

/// Fixed shading step of each face direction.
pub open spec fn face_brightness(f: FaceDirection) -> u8 {
    match f {
        FaceDirection::Top => 0,
        FaceDirection::Bottom => 3,
        FaceDirection::West => 1,
        FaceDirection::East => 1,
        FaceDirection::North => 2,
        FaceDirection::South => 2,
    }
}

pub open spec fn side_of_face(f: FaceDirection) -> SideDirection {
    match f {
        FaceDirection::Top => SideDirection::Top,
        FaceDirection::Bottom => SideDirection::Bottom,
        _ => SideDirection::Side,
    }
}

pub open spec fn face_of_side(s: SideDirection) -> FaceDirection {
    match s {
        SideDirection::Top => FaceDirection::Top,
        SideDirection::Bottom => FaceDirection::Bottom,
        SideDirection::Side => FaceDirection::South,
    }
}

/// Adds the unit offset of `f` to `p`.
pub open spec fn step(p: Vec3i, f: FaceDirection) -> Vec3i {
    Vec3i {
        x: (p.x + face_offset(f).x) as i32,
        y: (p.y + face_offset(f).y) as i32,
        z: (p.z + face_offset(f).z) as i32,
    }
}

impl FaceDirection {
    pub fn from_dir(dir: &Vec3i) -> (r: Option<FaceDirection>)
        ensures
            r matches Some(f) ==> face_offset(f) == *dir,
            r is Some <==> is_unit_dir(*dir),
    {
        if dir.x == 0 && dir.y == 1 && dir.z == 0 {
            Some(FaceDirection::Top)
        } else if dir.x == 0 && dir.y == -1 && dir.z == 0 {
            Some(FaceDirection::Bottom)
        } else if dir.x == -1 && dir.y == 0 && dir.z == 0 {
            Some(FaceDirection::West)
        } else if dir.x == 1 && dir.y == 0 && dir.z == 0 {
            Some(FaceDirection::East)
        } else if dir.x == 0 && dir.y == 0 && dir.z == -1 {
            Some(FaceDirection::North)
        } else if dir.x == 0 && dir.y == 0 && dir.z == 1 {
            Some(FaceDirection::South)
        } else {
            None
        }
    }

    pub fn as_dir(&self) -> (r: Vec3i)
        ensures
            r == face_offset(*self),
    {
        match self {
            FaceDirection::Top => Vec3i::new(0, 1, 0),
            FaceDirection::Bottom => Vec3i::new(0, -1, 0),
            FaceDirection::West => Vec3i::new(-1, 0, 0),
            FaceDirection::East => Vec3i::new(1, 0, 0),
            FaceDirection::North => Vec3i::new(0, 0, -1),
            FaceDirection::South => Vec3i::new(0, 0, 1),
        }
    }

    pub fn from_index(index: usize) -> (r: Option<FaceDirection>)
        ensures
            index < 6 ==> r == Some(face_of_index(index as int)),
            index >= 6 ==> r is None,
    {
        match index {
            0 => Some(FaceDirection::Top),
            1 => Some(FaceDirection::Bottom),
            2 => Some(FaceDirection::West),
            3 => Some(FaceDirection::East),
            4 => Some(FaceDirection::North),
            5 => Some(FaceDirection::South),
            _ => None,
        }
    }

    pub fn as_index(&self) -> (r: usize)
        ensures
            r as int == face_index(*self),
            r < 6,
            face_of_index(r as int) == *self,
    {
        match self {
            FaceDirection::Top => 0,
            FaceDirection::Bottom => 1,
            FaceDirection::West => 2,
            FaceDirection::East => 3,
            FaceDirection::North => 4,
            FaceDirection::South => 5,
        }
    }

    pub fn brightness(&self) -> (r: u8)
        ensures
            r == face_brightness(*self),
    {
        match self {
            FaceDirection::Top => 0,
            FaceDirection::Bottom => 3,
            FaceDirection::West => 1,
            FaceDirection::East => 1,
            FaceDirection::North => 2,
            FaceDirection::South => 2,
        }
    }

    /// Texture slot used for this face.
    pub fn side(&self) -> (r: SideDirection)
        ensures
            r == side_of_face(*self),
    {
        match self {
            FaceDirection::Top => SideDirection::Top,
            FaceDirection::Bottom => SideDirection::Bottom,
            _ => SideDirection::Side,
        }
    }
}

impl SideDirection {
    /// Representative face of a texture slot (a side maps to the south face).
    pub fn face(&self) -> (r: FaceDirection)
        ensures
            r == face_of_side(*self),
    {
        match self {
            SideDirection::Top => FaceDirection::Top,
            SideDirection::Bottom => FaceDirection::Bottom,
            SideDirection::Side => FaceDirection::South,
        }
    }
}

impl From<SideDirection> for FaceDirection {
    fn from(val: SideDirection) -> (r: FaceDirection) {
        val.face()
    }
}

impl vstd::std_specs::convert::FromSpecImpl<SideDirection> for FaceDirection {
    open spec fn obeys_from_spec() -> bool {
        true
    }

    open spec fn from_spec(v: SideDirection) -> FaceDirection {
        face_of_side(v)
    }
}

impl From<FaceDirection> for SideDirection {
    fn from(val: FaceDirection) -> (r: SideDirection) {
        val.side()
    }
}

impl vstd::std_specs::convert::FromSpecImpl<FaceDirection> for SideDirection {
    open spec fn obeys_from_spec() -> bool {
        true
    }

    open spec fn from_spec(v: FaceDirection) -> SideDirection {
        side_of_face(v)
    }
}

} // verus!
