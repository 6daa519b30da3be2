use vstd::prelude::*;

verus! {

/// A game world (server shard) that a character lives on.
#[derive(Clone, Copy, Debug, PartialEq, Eq, Structural, Hash)]
pub enum World {
        Ravana,
        Bismarck,
        Asura,
        Belias,
        Pandaemonium,
        Shinryu,
        Unicorn,
        Yojimbo,
        Zeromus,
        Twintania,
        Brynhildr,
        Famfrit,
        Lich,
        Mateus,
        Omega,
        Jenova,
        Zalera,
        Zodiark,
        Alexander,
        Anima,
        Carbuncle,
        Fenrir,
        Hades,
        Ixion,
        Kujata,
        Typhon,
        Ultima,
        Valefor,
        Exodus,
        Faerie,
        Lamia,
        Phoenix,
        Siren,
        Garuda,
        Ifrit,
        Ramuh,
        Titan,
        Diabolos,
        Gilgamesh,
        Leviathan,
        Midgardsormr,
        Odin,
        Shiva,
        Atomos,
        Bahamut,
        Chocobo,
        Moogle,
        Tonberry,
        Adamantoise,
        Coeurl,
        Malboro,
        Tiamat,
        Ultros,
        Behemoth,
        Cactuar,
        Cerberus,
        Goblin,
        Mandragora,
        Louisoix,
        Spriggan,
        Sephirot,
        Sophia,
        Zurvan,
        Aegis,
        Balmung,
        Durandal,
        Excalibur,
        Gungnir,
        Hyperion,
        Masamune,
        Ragnarok,
        Ridill,
        Sargatanas,
        Sagittarius,
        Phantom,
        Alpha,
        Raiden,
}

/// The fixed numeric id of each world.
pub open spec fn world_id(w: World) -> u16 {
    match w {
        World::Ravana => 21,
        World::Bismarck => 22,
        World::Asura => 23,
        World::Belias => 24,
        World::Pandaemonium => 28,
        World::Shinryu => 29,
        World::Unicorn => 30,
        World::Yojimbo => 31,
        World::Zeromus => 32,
        World::Twintania => 33,
        World::Brynhildr => 34,
        World::Famfrit => 35,
        World::Lich => 36,
        World::Mateus => 37,
        World::Omega => 39,
        World::Jenova => 40,
        World::Zalera => 41,
        World::Zodiark => 42,
        World::Alexander => 43,
        World::Anima => 44,
        World::Carbuncle => 45,
        World::Fenrir => 46,
        World::Hades => 47,
        World::Ixion => 48,
        World::Kujata => 49,
        World::Typhon => 50,
        World::Ultima => 51,
        World::Valefor => 52,
        World::Exodus => 53,
        World::Faerie => 54,
        World::Lamia => 55,
        World::Phoenix => 56,
        World::Siren => 57,
        World::Garuda => 58,
        World::Ifrit => 59,
        World::Ramuh => 60,
        World::Titan => 61,
        World::Diabolos => 62,
        World::Gilgamesh => 63,
        World::Leviathan => 64,
        World::Midgardsormr => 65,
        World::Odin => 66,
        World::Shiva => 67,
        World::Atomos => 68,
        World::Bahamut => 69,
        World::Chocobo => 70,
        World::Moogle => 71,
        World::Tonberry => 72,
        World::Adamantoise => 73,
        World::Coeurl => 74,
        World::Malboro => 75,
        World::Tiamat => 76,
        World::Ultros => 77,
        World::Behemoth => 78,
        World::Cactuar => 79,
        World::Cerberus => 80,
        World::Goblin => 81,
        World::Mandragora => 82,
        World::Louisoix => 83,
        World::Spriggan => 85,
        World::Sephirot => 86,
        World::Sophia => 87,
        World::Zurvan => 88,
        World::Aegis => 90,
        World::Balmung => 91,
        World::Durandal => 92,
        World::Excalibur => 93,
        World::Gungnir => 94,
        World::Hyperion => 95,
        World::Masamune => 96,
        World::Ragnarok => 97,
        World::Ridill => 98,
        World::Sargatanas => 99,
        World::Sagittarius => 400,
        World::Phantom => 401,
        World::Alpha => 402,
        World::Raiden => 403,
    }
}

/// The world that carries a numeric id, if any does.
pub open spec fn world_of_id(id: u16) -> Option<World> {
    match id {
        21 => Some(World::Ravana),
        22 => Some(World::Bismarck),
        23 => Some(World::Asura),
        24 => Some(World::Belias),
        28 => Some(World::Pandaemonium),
        29 => Some(World::Shinryu),
        30 => Some(World::Unicorn),
        31 => Some(World::Yojimbo),
        32 => Some(World::Zeromus),
        33 => Some(World::Twintania),
        34 => Some(World::Brynhildr),
        35 => Some(World::Famfrit),
        36 => Some(World::Lich),
        37 => Some(World::Mateus),
        39 => Some(World::Omega),
        40 => Some(World::Jenova),
        41 => Some(World::Zalera),
        42 => Some(World::Zodiark),
        43 => Some(World::Alexander),
        44 => Some(World::Anima),
        45 => Some(World::Carbuncle),
        46 => Some(World::Fenrir),
        47 => Some(World::Hades),
        48 => Some(World::Ixion),
        49 => Some(World::Kujata),
        50 => Some(World::Typhon),
        51 => Some(World::Ultima),
        52 => Some(World::Valefor),
        53 => Some(World::Exodus),
        54 => Some(World::Faerie),
        55 => Some(World::Lamia),
        56 => Some(World::Phoenix),
        57 => Some(World::Siren),
        58 => Some(World::Garuda),
        59 => Some(World::Ifrit),
        60 => Some(World::Ramuh),
        61 => Some(World::Titan),
        62 => Some(World::Diabolos),
        63 => Some(World::Gilgamesh),
        64 => Some(World::Leviathan),
        65 => Some(World::Midgardsormr),
        66 => Some(World::Odin),
        67 => Some(World::Shiva),
        68 => Some(World::Atomos),
        69 => Some(World::Bahamut),
        70 => Some(World::Chocobo),
        71 => Some(World::Moogle),
        72 => Some(World::Tonberry),
        73 => Some(World::Adamantoise),
        74 => Some(World::Coeurl),
        75 => Some(World::Malboro),
        76 => Some(World::Tiamat),
        77 => Some(World::Ultros),
        78 => Some(World::Behemoth),
        79 => Some(World::Cactuar),
        80 => Some(World::Cerberus),
        81 => Some(World::Goblin),
        82 => Some(World::Mandragora),
        83 => Some(World::Louisoix),
        85 => Some(World::Spriggan),
        86 => Some(World::Sephirot),
        87 => Some(World::Sophia),
        88 => Some(World::Zurvan),
        90 => Some(World::Aegis),
        91 => Some(World::Balmung),
        92 => Some(World::Durandal),
        93 => Some(World::Excalibur),
        94 => Some(World::Gungnir),
        95 => Some(World::Hyperion),
        96 => Some(World::Masamune),
        97 => Some(World::Ragnarok),
        98 => Some(World::Ridill),
        99 => Some(World::Sargatanas),
        400 => Some(World::Sagittarius),
        401 => Some(World::Phantom),
        402 => Some(World::Alpha),
        403 => Some(World::Raiden),
        _ => None,
    }
}

/// The numeric id of a world.
pub fn id_from_world(world: World) -> (r: u16)
    ensures
        r == world_id(world),
{
    match world {
        World::Ravana => 21,
        World::Bismarck => 22,
        World::Asura => 23,
        World::Belias => 24,
        World::Pandaemonium => 28,
        World::Shinryu => 29,
        World::Unicorn => 30,
        World::Yojimbo => 31,
        World::Zeromus => 32,
        World::Twintania => 33,
        World::Brynhildr => 34,
        World::Famfrit => 35,
        World::Lich => 36,
        World::Mateus => 37,
        World::Omega => 39,
        World::Jenova => 40,
        World::Zalera => 41,
        World::Zodiark => 42,
        World::Alexander => 43,
        World::Anima => 44,
        World::Carbuncle => 45,
        World::Fenrir => 46,
        World::Hades => 47,
        World::Ixion => 48,
        World::Kujata => 49,
        World::Typhon => 50,
        World::Ultima => 51,
        World::Valefor => 52,
        World::Exodus => 53,
        World::Faerie => 54,
        World::Lamia => 55,
        World::Phoenix => 56,
        World::Siren => 57,
        World::Garuda => 58,
        World::Ifrit => 59,
        World::Ramuh => 60,
        World::Titan => 61,
        World::Diabolos => 62,
        World::Gilgamesh => 63,
        World::Leviathan => 64,
        World::Midgardsormr => 65,
        World::Odin => 66,
        World::Shiva => 67,
        World::Atomos => 68,
        World::Bahamut => 69,
        World::Chocobo => 70,
        World::Moogle => 71,
        World::Tonberry => 72,
        World::Adamantoise => 73,
        World::Coeurl => 74,
        World::Malboro => 75,
        World::Tiamat => 76,
        World::Ultros => 77,
        World::Behemoth => 78,
        World::Cactuar => 79,
        World::Cerberus => 80,
        World::Goblin => 81,
        World::Mandragora => 82,
        World::Louisoix => 83,
        World::Spriggan => 85,
        World::Sephirot => 86,
        World::Sophia => 87,
        World::Zurvan => 88,
        World::Aegis => 90,
        World::Balmung => 91,
        World::Durandal => 92,
        World::Excalibur => 93,
        World::Gungnir => 94,
        World::Hyperion => 95,
        World::Masamune => 96,
        World::Ragnarok => 97,
        World::Ridill => 98,
        World::Sargatanas => 99,
        World::Sagittarius => 400,
        World::Phantom => 401,
        World::Alpha => 402,
        World::Raiden => 403,
    }
}

/// The world with the given numeric id; `None` for an id outside the table.
pub fn world_from_id(id: u16) -> (r: Option<World>)
    ensures
        r == world_of_id(id),
{
    let world = match id {
        21 => World::Ravana,
        22 => World::Bismarck,
        23 => World::Asura,
        24 => World::Belias,
        28 => World::Pandaemonium,
        29 => World::Shinryu,
        30 => World::Unicorn,
        31 => World::Yojimbo,
        32 => World::Zeromus,
        33 => World::Twintania,
        34 => World::Brynhildr,
        35 => World::Famfrit,
        36 => World::Lich,
        37 => World::Mateus,
        39 => World::Omega,
        40 => World::Jenova,
        41 => World::Zalera,
        42 => World::Zodiark,
        43 => World::Alexander,
        44 => World::Anima,
        45 => World::Carbuncle,
        46 => World::Fenrir,
        47 => World::Hades,
        48 => World::Ixion,
        49 => World::Kujata,
        50 => World::Typhon,
        51 => World::Ultima,
        52 => World::Valefor,
        53 => World::Exodus,
        54 => World::Faerie,
        55 => World::Lamia,
        56 => World::Phoenix,
        57 => World::Siren,
        58 => World::Garuda,
        59 => World::Ifrit,
        60 => World::Ramuh,
        61 => World::Titan,
        62 => World::Diabolos,
        63 => World::Gilgamesh,
        64 => World::Leviathan,
        65 => World::Midgardsormr,
        66 => World::Odin,
        67 => World::Shiva,
        68 => World::Atomos,
        69 => World::Bahamut,
        70 => World::Chocobo,
        71 => World::Moogle,
        72 => World::Tonberry,
        73 => World::Adamantoise,
        74 => World::Coeurl,
        75 => World::Malboro,
        76 => World::Tiamat,
        77 => World::Ultros,
        78 => World::Behemoth,
        79 => World::Cactuar,
        80 => World::Cerberus,
        81 => World::Goblin,
        82 => World::Mandragora,
        83 => World::Louisoix,
        85 => World::Spriggan,
        86 => World::Sephirot,
        87 => World::Sophia,
        88 => World::Zurvan,
        90 => World::Aegis,
        91 => World::Balmung,
        92 => World::Durandal,
        93 => World::Excalibur,
        94 => World::Gungnir,
        95 => World::Hyperion,
        96 => World::Masamune,
        97 => World::Ragnarok,
        98 => World::Ridill,
        99 => World::Sargatanas,
        400 => World::Sagittarius,
        401 => World::Phantom,
        402 => World::Alpha,
        403 => World::Raiden,
        _ => return None,
    };
    Some(world)
}

/// Every world's id leads back to that world.
pub proof fn lemma_world_id_round_trip(w: World)
    ensures
        world_of_id(world_id(w)) == Some(w),
{
}

/// An id that names a world is that world's id.
pub proof fn lemma_id_world_round_trip(id: u16)
    ensures
        world_of_id(id) matches Some(w) ==> world_id(w) == id,
{
}

/// No two worlds share an id.
pub proof fn lemma_world_id_injective(a: World, b: World)
    ensures
        world_id(a) == world_id(b) ==> a == b,
{
    lemma_world_id_round_trip(a);
    lemma_world_id_round_trip(b);
}

} // verus!
