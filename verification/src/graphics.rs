//! Terminal appearance of floor tiles and props: glyph, foreground and
//! background colour.
use vstd::prelude::*;

verus! {

/// A 24-bit terminal colour.
#[derive(Clone, Copy, Debug, PartialEq, Eq, Structural, Hash)]
pub struct RgbColor {
    pub r: u8,
    pub g: u8,
    pub b: u8,
}

/// The colour with the given channels.
pub open spec fn rgb(r: u8, g: u8, b: u8) -> RgbColor {
    RgbColor { r, g, b }
}

/// A glyph with its foreground and background colours.
pub type GraphicTriple = (String, RgbColor, RgbColor);

/// Kinds of ground a map tile can have.
#[derive(Clone, Copy, Debug, PartialEq, Eq, Structural, Hash)]
pub enum Floor {
    Gravel,
    Dirt,
    Grass,
    Sand,
    TallGrass,
    ScorchedEarth,
    WoodPlanks,
    Fire,
    Water,
    SandCloud,
    ShallowWater,
    DeepWater,
    Beach,
    Bridge,
    Sidewalk,
    Rooftop,
    Plaza,
    Alley,
    StoneFloor,
    DirtRoad,
    BeachSand,
}

/// Kinds of object that can stand on a map tile.
#[derive(Clone, Copy, Debug, PartialEq, Eq, Structural, Hash)]
pub enum Props {
    Wall,
    Tree,
    Bush,
    Rock,
    DeadTree,
    Bench,
    Barrel,
    Crate,
    Cactus,
    HitchingPost,
    WaterTrough,
    Fence,
    Table,
    Chair,
    Piano,
    Sign,
    HayBale,
    Well,
    Gallows,
    WaterTower,
    RailTrack,
    Windmill,
    LampPost,
    StoneWall,
    GunpowderBarrel,
}

/// Something that is drawn as one glyph with a foreground and a
/// background colour.
pub trait GraphicElement {
    /// The glyph, as characters.
    spec fn symbol_view(&self) -> Seq<char>;

    /// The foreground colour.
    spec fn fg_view(&self) -> RgbColor;

    /// The background colour.
    spec fn bg_view(&self) -> RgbColor;

    /// The glyph.
    fn symbol(&self) -> (r: String)
        ensures
            r@ == self.symbol_view(),
    ;

    /// The foreground colour.
    fn fg_color(&self) -> (r: RgbColor)
        ensures
            r == self.fg_view(),
    ;

    /// The background colour.
    fn bg_color(&self) -> (r: RgbColor)
        ensures
            r == self.bg_view(),
    ;

    /// Glyph, foreground and background together.
    fn to_graphic_triple(&self) -> (r: GraphicTriple)
        ensures
            r.0@ == self.symbol_view(),
            r.1 == self.fg_view(),
            r.2 == self.bg_view(),
    {
        (self.symbol(), self.fg_color(), self.bg_color())
    }
}

/// The glyph of a floor kind.
pub open spec fn floor_symbol(f: Floor) -> Seq<char> {
    match f {
        Floor::Gravel => ","@,
        Floor::Dirt => " "@,
        Floor::Grass => " "@,
        Floor::Sand => " "@,
        Floor::TallGrass => ";"@,
        Floor::ScorchedEarth => "."@,
        Floor::WoodPlanks => " "@,
        Floor::Fire => "^"@,
        Floor::Water => "~"@,
        Floor::SandCloud => "*"@,
        Floor::ShallowWater => "~"@,
        Floor::DeepWater => "≈"@,
        Floor::Beach => "."@,
        Floor::Bridge => "="@,
        Floor::Sidewalk => "."@,
        Floor::Rooftop => "^"@,
        Floor::Plaza => "."@,
        Floor::Alley => " "@,
        Floor::StoneFloor => "."@,
        Floor::DirtRoad => " "@,
        Floor::BeachSand => "."@,
    }
}

/// The foreground colour of a floor kind.
pub open spec fn floor_fg(f: Floor) -> RgbColor {
    match f {
        Floor::Sand => rgb(180, 160, 120),
        Floor::Dirt => rgb(100, 78, 42),
        Floor::Gravel => rgb(110, 95, 75),
        Floor::Grass => rgb(50, 80, 40),
        Floor::TallGrass => rgb(60, 100, 45),
        Floor::ScorchedEarth => rgb(90, 40, 20),
        Floor::WoodPlanks => rgb(130, 95, 50),
        Floor::Fire => rgb(255, 140, 0),
        Floor::Water => rgb(80, 140, 200),
        Floor::SandCloud => rgb(210, 180, 120),
        Floor::ShallowWater => rgb(100, 170, 220),
        Floor::DeepWater => rgb(30, 80, 180),
        Floor::Beach => rgb(220, 200, 140),
        Floor::Bridge => rgb(140, 100, 55),
        Floor::Sidewalk => rgb(140, 120, 85),
        Floor::Rooftop => rgb(160, 110, 60),
        Floor::Plaza => rgb(170, 150, 110),
        Floor::Alley => rgb(70, 55, 35),
        Floor::StoneFloor => rgb(150, 145, 135),
        Floor::DirtRoad => rgb(110, 85, 50),
        Floor::BeachSand => rgb(210, 190, 130),
    }
}

/// The background colour of a floor kind.
pub open spec fn floor_bg(f: Floor) -> RgbColor {
    match f {
        Floor::Sand => rgb(160, 140, 100),
        Floor::Dirt => rgb(80, 62, 35),
        Floor::Gravel => rgb(85, 75, 60),
        Floor::Grass => rgb(35, 60, 28),
        Floor::TallGrass => rgb(40, 70, 30),
        Floor::ScorchedEarth => rgb(55, 30, 15),
        Floor::WoodPlanks => rgb(95, 70, 38),
        Floor::Fire => rgb(200, 60, 0),
        Floor::Water => rgb(40, 80, 140),
        Floor::SandCloud => rgb(170, 140, 90),
        Floor::ShallowWater => rgb(60, 120, 180),
        Floor::DeepWater => rgb(15, 40, 120),
        Floor::Beach => rgb(190, 170, 110),
        Floor::Bridge => rgb(100, 72, 40),
        Floor::Sidewalk => rgb(110, 95, 65),
        Floor::Rooftop => rgb(120, 80, 40),
        Floor::Plaza => rgb(140, 125, 90),
        Floor::Alley => rgb(45, 35, 22),
        Floor::StoneFloor => rgb(120, 115, 105),
        Floor::DirtRoad => rgb(88, 68, 38),
        Floor::BeachSand => rgb(180, 160, 100),
    }
}

impl GraphicElement for Floor {
    open spec fn symbol_view(&self) -> Seq<char> {
        floor_symbol(*self)
    }

    open spec fn fg_view(&self) -> RgbColor {
        floor_fg(*self)
    }

    open spec fn bg_view(&self) -> RgbColor {
        floor_bg(*self)
    }

    fn symbol(&self) -> (r: String) {
        match self {
            Floor::Gravel => ",".to_owned(),
            Floor::Dirt => " ".to_owned(),
            Floor::Grass => " ".to_owned(),
            Floor::Sand => " ".to_owned(),
            Floor::TallGrass => ";".to_owned(),
            Floor::ScorchedEarth => ".".to_owned(),
            Floor::WoodPlanks => " ".to_owned(),
            Floor::Fire => "^".to_owned(),
            Floor::Water => "~".to_owned(),
            Floor::SandCloud => "*".to_owned(),
            Floor::ShallowWater => "~".to_owned(),
            Floor::DeepWater => "≈".to_owned(),
            Floor::Beach => ".".to_owned(),
            Floor::Bridge => "=".to_owned(),
            Floor::Sidewalk => ".".to_owned(),
            Floor::Rooftop => "^".to_owned(),
            Floor::Plaza => ".".to_owned(),
            Floor::Alley => " ".to_owned(),
            Floor::StoneFloor => ".".to_owned(),
            Floor::DirtRoad => " ".to_owned(),
            Floor::BeachSand => ".".to_owned(),
        }
    }

    fn fg_color(&self) -> (r: RgbColor) {
        match self {
            Floor::Sand => RgbColor { r: 180, g: 160, b: 120 },
            Floor::Dirt => RgbColor { r: 100, g: 78, b: 42 },
            Floor::Gravel => RgbColor { r: 110, g: 95, b: 75 },
            Floor::Grass => RgbColor { r: 50, g: 80, b: 40 },
            Floor::TallGrass => RgbColor { r: 60, g: 100, b: 45 },
            Floor::ScorchedEarth => RgbColor { r: 90, g: 40, b: 20 },
            Floor::WoodPlanks => RgbColor { r: 130, g: 95, b: 50 },
            Floor::Fire => RgbColor { r: 255, g: 140, b: 0 },
            Floor::Water => RgbColor { r: 80, g: 140, b: 200 },
            Floor::SandCloud => RgbColor { r: 210, g: 180, b: 120 },
            Floor::ShallowWater => RgbColor { r: 100, g: 170, b: 220 },
            Floor::DeepWater => RgbColor { r: 30, g: 80, b: 180 },
            Floor::Beach => RgbColor { r: 220, g: 200, b: 140 },
            Floor::Bridge => RgbColor { r: 140, g: 100, b: 55 },
            Floor::Sidewalk => RgbColor { r: 140, g: 120, b: 85 },
            Floor::Rooftop => RgbColor { r: 160, g: 110, b: 60 },
            Floor::Plaza => RgbColor { r: 170, g: 150, b: 110 },
            Floor::Alley => RgbColor { r: 70, g: 55, b: 35 },
            Floor::StoneFloor => RgbColor { r: 150, g: 145, b: 135 },
            Floor::DirtRoad => RgbColor { r: 110, g: 85, b: 50 },
            Floor::BeachSand => RgbColor { r: 210, g: 190, b: 130 },
        }
    }

    fn bg_color(&self) -> (r: RgbColor) {
        match self {
            Floor::Sand => RgbColor { r: 160, g: 140, b: 100 },
            Floor::Dirt => RgbColor { r: 80, g: 62, b: 35 },
            Floor::Gravel => RgbColor { r: 85, g: 75, b: 60 },
            Floor::Grass => RgbColor { r: 35, g: 60, b: 28 },
            Floor::TallGrass => RgbColor { r: 40, g: 70, b: 30 },
            Floor::ScorchedEarth => RgbColor { r: 55, g: 30, b: 15 },
            Floor::WoodPlanks => RgbColor { r: 95, g: 70, b: 38 },
            Floor::Fire => RgbColor { r: 200, g: 60, b: 0 },
            Floor::Water => RgbColor { r: 40, g: 80, b: 140 },
            Floor::SandCloud => RgbColor { r: 170, g: 140, b: 90 },
            Floor::ShallowWater => RgbColor { r: 60, g: 120, b: 180 },
            Floor::DeepWater => RgbColor { r: 15, g: 40, b: 120 },
            Floor::Beach => RgbColor { r: 190, g: 170, b: 110 },
            Floor::Bridge => RgbColor { r: 100, g: 72, b: 40 },
            Floor::Sidewalk => RgbColor { r: 110, g: 95, b: 65 },
            Floor::Rooftop => RgbColor { r: 120, g: 80, b: 40 },
            Floor::Plaza => RgbColor { r: 140, g: 125, b: 90 },
            Floor::Alley => RgbColor { r: 45, g: 35, b: 22 },
            Floor::StoneFloor => RgbColor { r: 120, g: 115, b: 105 },
            Floor::DirtRoad => RgbColor { r: 88, g: 68, b: 38 },
            Floor::BeachSand => RgbColor { r: 180, g: 160, b: 100 },
        }
    }
}

/// The glyph of a prop kind.
pub open spec fn props_symbol(p: Props) -> Seq<char> {
    match p {
        Props::Wall => "#"@,
        Props::Tree => "T"@,
        Props::Bush => "%"@,
        Props::Rock => "o"@,
        Props::DeadTree => "t"@,
        Props::Bench => "H"@,
        Props::Barrel => "0"@,
        Props::Crate => "B"@,
        Props::Cactus => "Y"@,
        Props::HitchingPost => "F"@,
        Props::WaterTrough => "U"@,
        Props::Fence => "-"@,
        Props::Table => "n"@,
        Props::Chair => "h"@,
        Props::Piano => "M"@,
        Props::Sign => "]"@,
        Props::HayBale => "&"@,
        Props::Well => "O"@,
        Props::Gallows => "P"@,
        Props::WaterTower => "A"@,
        Props::RailTrack => "="@,
        Props::Windmill => "X"@,
        Props::LampPost => "i"@,
        Props::StoneWall => "#"@,
        Props::GunpowderBarrel => "0"@,
    }
}

/// The foreground colour of a prop kind.
pub open spec fn props_fg(p: Props) -> RgbColor {
    match p {
        Props::Wall => rgb(120, 90, 45),
        Props::Tree => rgb(40, 100, 35),
        Props::Bush => rgb(55, 110, 40),
        Props::Rock => rgb(110, 105, 95),
        Props::DeadTree => rgb(90, 70, 45),
        Props::Bench => rgb(120, 80, 40),
        Props::Barrel => rgb(120, 80, 40),
        Props::Crate => rgb(130, 100, 50),
        Props::Cactus => rgb(50, 100, 40),
        Props::HitchingPost => rgb(105, 75, 38),
        Props::WaterTrough => rgb(65, 110, 145),
        Props::Fence => rgb(130, 100, 50),
        Props::Table => rgb(120, 80, 40),
        Props::Chair => rgb(105, 75, 38),
        Props::Piano => rgb(50, 45, 40),
        Props::Sign => rgb(150, 125, 70),
        Props::HayBale => rgb(200, 180, 80),
        Props::Well => rgb(130, 130, 130),
        Props::Gallows => rgb(100, 70, 35),
        Props::WaterTower => rgb(110, 80, 45),
        Props::RailTrack => rgb(90, 85, 80),
        Props::Windmill => rgb(140, 110, 60),
        Props::LampPost => rgb(80, 80, 90),
        Props::StoneWall => rgb(140, 135, 125),
        Props::GunpowderBarrel => rgb(80, 60, 40),
    }
}

/// Whether a prop is a wall (timber or stone).
pub open spec fn props_is_wall(p: Props) -> bool {
    p == Props::Wall || p == Props::StoneWall
}

impl Props {
    /// Whether this prop is a wall (timber or stone).
    pub fn is_wall(&self) -> (r: bool)
        ensures
            r == props_is_wall(*self),
    {
        match self {
            Props::Wall | Props::StoneWall => true,
            _ => false,
        }
    }

    /// The glyph of this prop.
    pub fn symbol(&self) -> (r: String)
        ensures
            r@ == props_symbol(*self),
    {
        match self {
            Props::Wall => "#".to_owned(),
            Props::Tree => "T".to_owned(),
            Props::Bush => "%".to_owned(),
            Props::Rock => "o".to_owned(),
            Props::DeadTree => "t".to_owned(),
            Props::Bench => "H".to_owned(),
            Props::Barrel => "0".to_owned(),
            Props::Crate => "B".to_owned(),
            Props::Cactus => "Y".to_owned(),
            Props::HitchingPost => "F".to_owned(),
            Props::WaterTrough => "U".to_owned(),
            Props::Fence => "-".to_owned(),
            Props::Table => "n".to_owned(),
            Props::Chair => "h".to_owned(),
            Props::Piano => "M".to_owned(),
            Props::Sign => "]".to_owned(),
            Props::HayBale => "&".to_owned(),
            Props::Well => "O".to_owned(),
            Props::Gallows => "P".to_owned(),
            Props::WaterTower => "A".to_owned(),
            Props::RailTrack => "=".to_owned(),
            Props::Windmill => "X".to_owned(),
            Props::LampPost => "i".to_owned(),
            Props::StoneWall => "#".to_owned(),
            Props::GunpowderBarrel => "0".to_owned(),
        }
    }

    /// The foreground colour of this prop.
    pub fn fg_color(&self) -> (r: RgbColor)
        ensures
            r == props_fg(*self),
    {
        match self {
            Props::Wall => RgbColor { r: 120, g: 90, b: 45 },
            Props::Tree => RgbColor { r: 40, g: 100, b: 35 },
            Props::Bush => RgbColor { r: 55, g: 110, b: 40 },
            Props::Rock => RgbColor { r: 110, g: 105, b: 95 },
            Props::DeadTree => RgbColor { r: 90, g: 70, b: 45 },
            Props::Bench => RgbColor { r: 120, g: 80, b: 40 },
            Props::Barrel => RgbColor { r: 120, g: 80, b: 40 },
            Props::Crate => RgbColor { r: 130, g: 100, b: 50 },
            Props::Cactus => RgbColor { r: 50, g: 100, b: 40 },
            Props::HitchingPost => RgbColor { r: 105, g: 75, b: 38 },
            Props::WaterTrough => RgbColor { r: 65, g: 110, b: 145 },
            Props::Fence => RgbColor { r: 130, g: 100, b: 50 },
            Props::Table => RgbColor { r: 120, g: 80, b: 40 },
            Props::Chair => RgbColor { r: 105, g: 75, b: 38 },
            Props::Piano => RgbColor { r: 50, g: 45, b: 40 },
            Props::Sign => RgbColor { r: 150, g: 125, b: 70 },
            Props::HayBale => RgbColor { r: 200, g: 180, b: 80 },
            Props::Well => RgbColor { r: 130, g: 130, b: 130 },
            Props::Gallows => RgbColor { r: 100, g: 70, b: 35 },
            Props::WaterTower => RgbColor { r: 110, g: 80, b: 45 },
            Props::RailTrack => RgbColor { r: 90, g: 85, b: 80 },
            Props::Windmill => RgbColor { r: 140, g: 110, b: 60 },
            Props::LampPost => RgbColor { r: 80, g: 80, b: 90 },
            Props::StoneWall => RgbColor { r: 140, g: 135, b: 125 },
            Props::GunpowderBarrel => RgbColor { r: 80, g: 60, b: 40 },
        }
    }
}

} // verus!
