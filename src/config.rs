use vstd::prelude::*;
use std::collections::HashMap;

verus! {

/// Why a configuration could not be loaded.
#[derive(Debug)]
pub enum CfgError {
    IO(String),
    Parse(String),
}

/// Why a texture atlas could not be loaded.
#[derive(Debug)]
pub enum TextureAtlasError {
    IO(String),
    Image(String),
    Texture(String),
}

/// Where a texture atlas lies and how its tiles are laid out.
#[derive(Debug)]
pub struct TextureAtlasCfg {
    pub path: String,
    pub tile_size: (u32, u32),
    pub tile_count: (u32, u32),
    pub color_mask: Option<[u8; 4]>,
}

/// How one kind of map tile is drawn: its atlas tile and its colors.
#[derive(Clone, Copy, Debug, PartialEq, Eq, Hash)]
pub struct UiMapTileCfg {
    pub tile_n: u32,
    pub fg: [u8; 4],
    pub bg: [u8; 4],
}

impl Default for UiMapTileCfg {
    fn default() -> (c: Self)
        ensures
            c.tile_n == 0,
            c.fg == [255u8, 255u8, 255u8, 255u8],
            c.bg == [255u8, 255u8, 255u8, 255u8],
    {
        UiMapTileCfg { tile_n: 0, fg: [255, 255, 255, 255], bg: [255, 255, 255, 255] }
    }
}

/// How the map is drawn.
#[derive(Debug)]
pub struct UiMapCfg {
    pub atlas_path: String,
    pub visible_tile_size: Option<(u32, u32)>,
    pub tiles: HashMap<String, UiMapTileCfg>,
}

/// The user interface's configuration.
#[derive(Debug)]
pub struct UiCfg {
    pub map: UiMapCfg,
}

/// How one kind of entity is drawn.
#[derive(Clone, Copy, Debug, PartialEq, Eq, Hash)]
pub struct MapEntityCfg {
    tile: u32,
    fg: [u8; 4],
}

impl MapEntityCfg {
    pub closed spec fn spec_tile(&self) -> u32 {
        self.tile
    }

    pub closed spec fn spec_fg(&self) -> [u8; 4] {
        self.fg
    }

    pub fn new(tile: u32, fg: [u8; 4]) -> (c: Self)
        ensures
            c.spec_tile() == tile,
            c.spec_fg() == fg,
    {
        MapEntityCfg { tile, fg }
    }

    pub fn tile(&self) -> (r: u32)
        ensures
            r == self.spec_tile(),
    {
        self.tile
    }

    pub fn fg_color(&self) -> (r: [u8; 4])
        ensures
            r == self.spec_fg(),
    {
        self.fg
    }
}

/// The map's drawing configuration: its atlas, the size of a drawn tile and
/// how each kind of entity is drawn.
pub struct MapCfg {
    atlas: TextureAtlasCfg,
    visible_tile_size: (u32, u32),
    entities: HashMap<String, MapEntityCfg>,
}

impl MapCfg {
    pub closed spec fn spec_visible_tile_size(&self) -> (u32, u32) {
        self.visible_tile_size
    }

    pub closed spec fn spec_atlas(&self) -> &TextureAtlasCfg {
        &self.atlas
    }

    pub closed spec fn spec_entities(&self) -> &HashMap<String, MapEntityCfg> {
        &self.entities
    }

    pub fn new(
        atlas: TextureAtlasCfg,
        visible_tile_size: (u32, u32),
        entities: HashMap<String, MapEntityCfg>,
    ) -> (c: Self)
        ensures
            c.spec_visible_tile_size() == visible_tile_size,
            *c.spec_atlas() == atlas,
            *c.spec_entities() == entities,
    {
        MapCfg { atlas, visible_tile_size, entities }
    }

    pub fn atlas(&self) -> (r: &TextureAtlasCfg)
        ensures
            r == self.spec_atlas(),
    {
        &self.atlas
    }

    pub fn visible_tile_size(&self) -> (r: (u32, u32))
        ensures
            r == self.spec_visible_tile_size(),
    {
        self.visible_tile_size
    }

    pub fn entities(&self) -> (r: &HashMap<String, MapEntityCfg>)
        ensures
            r == self.spec_entities(),
    {
        &self.entities
    }
}

/// The whole drawing configuration.
pub struct Configuration {
    map_cfg: MapCfg,
}

impl Configuration {
    pub closed spec fn spec_map_cfg(&self) -> &MapCfg {
        &self.map_cfg
    }

    pub fn new(map_cfg: MapCfg) -> (c: Self)
        ensures
            *c.spec_map_cfg() == map_cfg,
    {
        Configuration { map_cfg }
    }

    pub fn map_cfg(&self) -> (r: &MapCfg)
        ensures
            r == self.spec_map_cfg(),
    {
        &self.map_cfg
    }
}

} // verus!
