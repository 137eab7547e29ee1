use vstd::prelude::*;
use crate::input::{DeviceType, PadFilterType};
use crate::layout_manager::layout_scripts::WindowPostion;
use crate::seqs::{first_index, lemma_first_index};
use crate::input::str_eq;
use crate::text::{decimal, decimal_string, push_decimal, split_whitespace, string_views, words};
use crate::util::{
    OsFmt, SanitizePath, join_path, joined, os_path, parent_of, path_parent, sanitized, single,
};

verus! {

/// Which SDL2 library a handler forces on its game.
#[derive(Clone, Copy, PartialEq, Eq, Structural, Debug)]
pub enum SDL2Override {
    No,
    Srt,
    Sys,
}

/// An input device as the launch sees it.
pub struct RunningInputDevice {
    pub hash: u64,
    pub device_type: DeviceType,
    pub path: String,
    pub enabled: bool,
}

/// What a game handler says about how its game is launched.
pub struct LaunchHandler {
    /// Whether the game is a Windows game run through Proton.
    pub win: bool,
    /// The executable, relative to the game directory.
    pub exec_path: String,
    /// The Steam runtime to run under: empty, `scout`, `soldier`, `sniper`
    /// or `steamrt4`.
    pub runtime: String,
    /// Whether the handler keeps saves per profile.
    pub saved_handler: bool,
    pub sdl2_override: SDL2Override,
    /// Extra `KEY=value` environment settings, whitespace separated.
    pub env: String,
    pub use_mangohud: bool,
    /// Paths below the game directory hidden from the game.
    pub game_null_paths: Vec<String>,
    pub use_goldberg: bool,
    pub steam_appid: Option<u64>,
    /// The game's arguments, whitespace separated, with `$` placeholders.
    pub args: String,
    /// The handler's own directory.
    pub path_handler: String,
}

/// The launcher settings a launch reads.
pub struct LaunchConfig {
    pub disable_mount_gamedirs: bool,
    pub profile_unique_dirs: bool,
    pub proton_separate_pfxs: bool,
    pub proton_version: String,
    pub proton_wow64: bool,
    pub pad_filter_type: PadFilterType,
    pub gamescope_resize_support: bool,
    pub gamescope_force_fullscreen: bool,
    pub gamescope_force_grab_cursor: bool,
    pub gamescope_sdl_backend: bool,
    pub kbm_support: bool,
}

/// The launcher's own directories and helper binaries.
pub struct LaunchPaths {
    /// The launcher's data directory.
    pub party: String,
    /// The Steam installation.
    pub steam: String,
    /// The launcher's bundled resources.
    pub res: String,
    /// The `umu-run` binary that runs Windows games.
    pub umu_run: String,
}

/// What a path below the game directory is.
#[derive(Clone, Copy, PartialEq, Eq, Structural, Debug)]
pub enum PathKind {
    File,
    Dir,
    Missing,
}

/// What the file system says about the paths a launch command uses; the
/// caller looks these up below the game directory that `launch_gamedir`
/// chose.
pub struct LaunchFacts {
    /// Whether the executable exists.
    pub exec_exists: bool,
    /// For each of the handler's hidden paths, what it is.
    pub null_path_kinds: Vec<PathKind>,
    /// Where Steam's `sdk32` link points, or why it could not be read.
    pub sdk32_link: Result<String, String>,
    /// Where Steam's `sdk64` link points, or why it could not be read.
    pub sdk64_link: Result<String, String>,
    /// Whether the sniper runtime's entry point exists.
    pub sniper_exists: bool,
    /// Whether the entry point of the sniper runtime installed under its
    /// older directory name exists.
    pub sniper_arm_exists: bool,
}

/// A program to run: the binary, its working directory, the environment it
/// gets on top of the launcher's, and its arguments.
pub struct CommandPlan {
    pub program: String,
    pub cwd: String,
    pub envs: Vec<(String, String)>,
    pub args: Vec<String>,
}

pub open spec fn pair_views(v: Seq<(String, String)>) -> Seq<(Seq<char>, Seq<char>)> {
    v.map_values(|p: (String, String)| (p.0@, p.1@))
}

fn push_env(envs: &mut Vec<(String, String)>, k: &str, v: &str)
    ensures
        pair_views(final(envs)@) == pair_views(old(envs)@).push((k@, v@)),
{
    envs.push((String::from_str(k), String::from_str(v)));
    proof {
        assert(pair_views(final(envs)@) =~= pair_views(old(envs)@).push((k@, v@)));
    }
}

fn push_string(args: &mut Vec<String>, a: String)
    ensures
        string_views(final(args)@) == string_views(old(args)@).push(a@),
{
    let ghost v = a@;
    args.push(a);
    proof {
        assert(string_views(final(args)@) =~= string_views(old(args)@).push(v));
    }
}

fn push_arg(args: &mut Vec<String>, a: &str)
    ensures
        string_views(final(args)@) == string_views(old(args)@).push(a@),
{
    args.push(String::from_str(a));
    proof {
        assert(string_views(final(args)@) =~= string_views(old(args)@).push(a@));
    }
}

/// The directory a game instance runs from: a per-instance mount when the
/// handler keeps saves per profile and mounts are on, else the game's root.
pub open spec fn gamedir_for(
    saved_handler: bool,
    cfg_disable_mount: bool,
    cfg_unique_dirs: bool,
    party: Seq<char>,
    full_count_idx: nat,
    rootpath: Result<Seq<char>, Seq<char>>,
) -> Result<Seq<char>, Seq<char>> {
    if saved_handler && !cfg_disable_mount && cfg_unique_dirs {
        Ok(joined(joined(party, "tmp"@), "game-"@ + decimal(full_count_idx)))
    } else {
        rootpath
    }
}

/// The directory an instance runs from; `rootpath` is the game's root
/// directory or why it could not be found.
pub fn launch_gamedir(
    h: &LaunchHandler,
    cfg: &LaunchConfig,
    paths: &LaunchPaths,
    full_count_idx: usize,
    rootpath: &Result<String, String>,
) -> (res: Result<String, String>)
    ensures
        match (res, rootpath_views(*rootpath)) {
            (Ok(d), g) => gamedir_for(h.saved_handler, cfg.disable_mount_gamedirs, cfg.profile_unique_dirs, paths.party@,
                full_count_idx as nat, g) == Ok::<Seq<char>, Seq<char>>(d@),
            (Err(e), g) => gamedir_for(h.saved_handler, cfg.disable_mount_gamedirs, cfg.profile_unique_dirs, paths.party@,
                full_count_idx as nat, g) == Err::<Seq<char>, Seq<char>>(e@),
        },
{
    if h.saved_handler && !cfg.disable_mount_gamedirs && cfg.profile_unique_dirs {
        let tmp = join_path(paths.party.as_str(), "tmp");
        let mut name = String::from_str("game-");
        push_decimal(&mut name, full_count_idx as u64);
        Ok(join_path(tmp.as_str(), name.as_str()))
    } else {
        match rootpath {
            Ok(r) => Ok(r.clone()),
            Err(e) => Err(e.clone()),
        }
    }
}

pub open spec fn rootpath_views(r: Result<String, String>) -> Result<Seq<char>, Seq<char>> {
    match r {
        Ok(p) => Ok(p@),
        Err(e) => Err(e@),
    }
}

/// The first input device with hash `hash`.
pub open spec fn device_by_hash(inputs: Seq<RunningInputDevice>, hash: u64) -> Option<RunningInputDevice> {
    match first_index(inputs, |d: RunningInputDevice| d.hash == hash) {
        Some(k) => Some(inputs[k]),
        None => None,
    }
}

/// The devices of an instance, given by hash, that are plugged in, in the
/// instance's order.
pub open spec fn enabled_devices(hashes: Seq<u64>, inputs: Seq<RunningInputDevice>) -> Seq<RunningInputDevice>
    decreases hashes.len(),
{
    if hashes.len() == 0 {
        Seq::empty()
    } else {
        let rest = enabled_devices(hashes.drop_last(), inputs);
        match device_by_hash(inputs, hashes.last()) {
            Some(d) => rest.push(d),
            None => rest,
        }
    }
}

pub open spec fn is_kbm(t: DeviceType) -> bool {
    t == DeviceType::Keyboard || t == DeviceType::Mouse
}

/// The keyboards and mice among `devs`, each path followed by a comma.
pub open spec fn kbm_list(devs: Seq<RunningInputDevice>) -> Seq<char>
    decreases devs.len(),
{
    if devs.len() == 0 {
        Seq::empty()
    } else {
        kbm_list(devs.drop_last()) + if is_kbm(devs.last().device_type) {
            devs.last().path@ + single(',')
        } else {
            Seq::empty()
        }
    }
}

pub open spec fn has_type(devs: Seq<RunningInputDevice>, t: DeviceType) -> bool {
    exists|k: int| 0 <= k < devs.len() && (#[trigger] devs[k]).device_type == t
}

pub open spec fn has_hash(devs: Seq<RunningInputDevice>, hash: u64) -> bool {
    exists|k: int| 0 <= k < devs.len() && (#[trigger] devs[k]).hash == hash
}

fn find_by_hash(inputs: &Vec<RunningInputDevice>, hash: u64) -> (res: Option<usize>)
    ensures
        match res {
            Some(k) => k < inputs@.len() && device_by_hash(inputs@, hash) == Some(inputs@[k as int]),
            None => device_by_hash(inputs@, hash) is None,
        },
{
    let ghost p = |d: RunningInputDevice| d.hash == hash;
    let mut k: usize = 0;
    while k < inputs.len()
        invariant
            k <= inputs@.len(),
            p == (|d: RunningInputDevice| d.hash == hash),
            forall|m: int| 0 <= m < k ==> !p(#[trigger] inputs@[m]),
        decreases inputs.len() - k,
    {
        if inputs[k].hash == hash {
            proof {
                lemma_first_index(inputs@, p, k as int);
            }
            return Some(k);
        }
        k += 1;
    }
    proof {
        lemma_first_index(inputs@, p, k as int);
    }
    None
}

/// Positions in `inputs` of the instance's plugged-in devices, in the
/// instance's order.
fn enabled_device_indices(hashes: &Vec<u64>, inputs: &Vec<RunningInputDevice>) -> (res: Vec<usize>)
    ensures
        res@.len() == enabled_devices(hashes@, inputs@).len(),
        forall|k: int| 0 <= k < res@.len() ==> (#[trigger] res@[k]) < inputs@.len() && inputs@[res@[k] as int]
            == enabled_devices(hashes@, inputs@)[k],
{
    let mut res: Vec<usize> = Vec::new();
    let mut i: usize = 0;
    while i < hashes.len()
        invariant
            i <= hashes@.len(),
            res@.len() == enabled_devices(hashes@.take(i as int), inputs@).len(),
            forall|k: int| 0 <= k < res@.len() ==> (#[trigger] res@[k]) < inputs@.len() && inputs@[res@[k] as int]
                == enabled_devices(hashes@.take(i as int), inputs@)[k],
        decreases hashes.len() - i,
    {
        proof {
            assert(hashes@.take(i + 1).drop_last() =~= hashes@.take(i as int));
            assert(hashes@.take(i + 1).last() == hashes@[i as int]);
        }
        match find_by_hash(inputs, hashes[i]) {
            Some(k) => {
                res.push(k);
            },
            None => {},
        }
        i += 1;
    }
    proof {
        assert(hashes@.take(i as int) =~= hashes@);
    }
    res
}

/// Controllers SDL is told to ignore when only Steam Input devices are
/// offered to games.
pub const SDL_GAMECONTROLLER_IGNORE_DEVICES: &'static str = "0x054c/0x0df2,0x054c/0x0df2,0x045e/0x02e3,0x045e/0x0b00,0x045e/0x0b05,0x2dc8/0x6000,0x2dc8/0x6100,0x2dc8/0x6001,0x2dc8/0x6101,0x2dc8/0x6003,0x2dc8/0x6006,0x2dc8/0x6009,0x2dc8/0x6012,0x28de/0x1002,0x28de/0x1003,0x28de/0x1071,0x28de/0x1052,0x28de/0x1042,0x28de/0x1203,0x28de/0x1204,0x28de/0x1205,0x28de/0x1206,0x28de/0x1302,0x28de/0x1303,0x28de/0x1304,0x28de/0x1305,0x0f0d/0x01ab,0x0f0d/0x0196,0x28de/0x12ff,0x28de/0x12fe,0x28de/0x12fd,0x28de/0x12fc,0x28de/0x12fb,0x28de/0x12fa,0x28de/0x12f9,0x28de/0x12f8,0x28de/0x12f7,0x28de/0x12f6,0x28de/0x12f5,0x28de/0x12f4,0x28de/0x12f3,0x28de/0x12f2,0x28de/0x12f1,0x28de/0x12f0,0x0079/0x181a,0x044f/0xb315,0x044f/0xd007,0x046d/0xcad1,0x054c/0x0268,0x056e/0x200f,0x056e/0x2013,0x05b8/0x1004,0x05b8/0x1006,0x06a3/0xf622,0x0738/0x3180,0x0738/0x3250,0x0738/0x3481,0x0738/0x8180,0x0738/0x8838,0x0810/0x0001,0x0810/0x0003,0x0925/0x0005,0x0925/0x8866,0x0925/0x8888,0x0e6f/0x0109,0x0e6f/0x011e,0x0e6f/0x0128,0x0e6f/0x0214,0x0e6f/0x1314,0x0e6f/0x6302,0x0e8f/0x0008,0x0e8f/0x3075,0x0e8f/0x310d,0x0f0d/0x0009,0x0f0d/0x004d,0x0f0d/0x005f,0x0f0d/0x006a,0x0f0d/0x006e,0x0f0d/0x0085,0x0f0d/0x0086,0x0f0d/0x0088,0x0f30/0x1100,0x11ff/0x3331,0x1345/0x1000,0x1345/0x6005,0x146b/0x5500,0x1a34/0x0836,0x20bc/0x5500,0x20d6/0x576d,0x20d6/0xca6d,0x2563/0x0523,0x2563/0x0575,0x25f0/0x83c3,0x25f0/0xc121,0x2c22/0x2003,0x2c22/0x2302,0x2c22/0x2502,0x8380/0x0003,0x8888/0x0308,0x0079/0x181b,0x044f/0xd00e,0x054c/0x05c4,0x054c/0x05c5,0x054c/0x09cc,0x054c/0x0ba0,0x0738/0x8250,0x0738/0x8384,0x0738/0x8480,0x0738/0x8481,0x0c12/0x0e10,0x0c12/0x0e13,0x0c12/0x0e15,0x0c12/0x0e20,0x0c12/0x0ef6,0x0c12/0x1cf6,0x0c12/0x1e10,0x0c12/0x2e18,0x0e6f/0x0203,0x0e6f/0x0207,0x0e6f/0x020a,0x0f0d/0x0055,0x0f0d/0x005e,0x0f0d/0x0066,0x0f0d/0x0084,0x0f0d/0x0087,0x0f0d/0x008a,0x0f0d/0x009c,0x0f0d/0x00a0,0x0f0d/0x00ee,0x0f0d/0x011c,0x0f0d/0x0123,0x0f0d/0x0162,0x11c0/0x4001,0x146b/0x0d01,0x146b/0x0d02,0x146b/0x0d06,0x146b/0x0d08,0x146b/0x0d09,0x146b/0x0d10,0x146b/0x0d10,0x146b/0x0d13,0x146b/0x1103,0x1532/0x0401,0x1532/0x1000,0x1532/0x1004,0x1532/0x1007,0x1532/0x1008,0x1532/0x1009,0x1532/0x100a,0x1532/0x1100,0x20d6/0x792a,0x2c22/0x2000,0x2c22/0x2300,0x2c22/0x2500,0x3285/0x0d16,0x3285/0x0d17,0x7545/0x0104,0x9886/0x0025,0x054c/0x0ce6,0x054c/0x0df2,0x054c/0x0e5f,0x0e6f/0x0209,0x0f0d/0x0163,0x0f0d/0x0184,0x1532/0x100b,0x1532/0x100c,0x1532/0x1012,0x3285/0x0d18,0x3285/0x0d19,0x358a/0x0104,0x0079/0x18d4,0x03eb/0xff02,0x044f/0xb326,0x045e/0x028e,0x045e/0x028f,0x045e/0x0291,0x045e/0x02a0,0x045e/0x02a1,0x045e/0x02a9,0x045e/0x0719,0x046d/0xc21d,0x046d/0xc21e,0x046d/0xc21f,0x046d/0xc242,0x056e/0x2004,0x0738/0x4716,0x0738/0x4718,0x0738/0x4726,0x0738/0x4728,0x0738/0x4736,0x0738/0x4738,0x0738/0x4740,0x0738/0xb726,0x0738/0xbeef,0x0738/0xcb02,0x0738/0xcb03,0x0738/0xf738,0x0955/0x7210,0x0955/0xb400,0x0b05/0x1b4c,0x0e6f/0x0105,0x0e6f/0x0113,0x0e6f/0x011f,0x0e6f/0x0125,0x0e6f/0x0127,0x0e6f/0x0131,0x0e6f/0x0133,0x0e6f/0x0143,0x0e6f/0x0147,0x0e6f/0x0201,0x0e6f/0x0213,0x0e6f/0x021f,0x0e6f/0x0301,0x0e6f/0x0313,0x0e6f/0x0314,0x0e6f/0x0401,0x0e6f/0x0413,0x0e6f/0x0501,0x0e6f/0xf900,0x0f0d/0x000a,0x0f0d/0x000c,0x0f0d/0x000d,0x0f0d/0x0016,0x0f0d/0x001b,0x0f0d/0x008c,0x0f0d/0x00db,0x0f0d/0x011e,0x1038/0x1430,0x1038/0x1431,0x1038/0xb360,0x11c9/0x55f0,0x12ab/0x0004,0x12ab/0x0301,0x12ab/0x0303,0x1430/0x02a0,0x1430/0x4748,0x1430/0xf801,0x146b/0x0601,0x15e4/0x3f00,0x15e4/0x3f0a,0x15e4/0x3f10,0x162e/0xbeef,0x1689/0xfd00,0x1689/0xfd01,0x1689/0xfe00,0x1949/0x041a,0x1bad/0x0002,0x1bad/0x0003,0x1bad/0xf016,0x1bad/0xf018,0x1bad/0xf019,0x1bad/0xf021,0x1bad/0xf023,0x1bad/0xf025,0x1bad/0xf027,0x1bad/0xf028,0x1bad/0xf02e,0x1bad/0xf036,0x1bad/0xf038,0x1bad/0xf039,0x1bad/0xf03a,0x1bad/0xf03d,0x1bad/0xf03e,0x1bad/0xf03f,0x1bad/0xf042,0x1bad/0xf080,0x1bad/0xf501,0x1bad/0xf502,0x1bad/0xf503,0x1bad/0xf504,0x1bad/0xf505,0x1bad/0xf506,0x1bad/0xf900,0x1bad/0xf901,0x1bad/0xf902,0x1bad/0xf903,0x1bad/0xf904,0x1bad/0xf906,0x1bad/0xfa01,0x1bad/0xfd00,0x1bad/0xfd01,0x24c6/0x5000,0x24c6/0x5300,0x24c6/0x5303,0x24c6/0x530a,0x24c6/0x531a,0x24c6/0x5397,0x24c6/0x5500,0x24c6/0x5501,0x24c6/0x5502,0x24c6/0x5503,0x24c6/0x5506,0x24c6/0x550d,0x24c6/0x550e,0x24c6/0x5508,0x24c6/0x5510,0x24c6/0x5b00,0x24c6/0x5b02,0x24c6/0x5b03,0x24c6/0x5d04,0x24c6/0xfafa,0x24c6/0xfafb,0x24c6/0xfafc,0x24c6/0xfafd,0x24c6/0xfafe,0x03f0/0x0495,0x044f/0xd012,0x045e/0x02d1,0x045e/0x02dd,0x045e/0x02e0,0x045e/0x02e3,0x045e/0x02ea,0x045e/0x02fd,0x045e/0x02ff,0x045e/0x0b00,0x045e/0x0b05,0x045e/0x0b0a,0x045e/0x0b0c,0x045e/0x0b12,0x045e/0x0b13,0x045e/0x0b20,0x045e/0x0b21,0x045e/0x0b22,0x0738/0x4a01,0x0e6f/0x0139,0x0e6f/0x013b,0x0e6f/0x013a,0x0e6f/0x0145,0x0e6f/0x0146,0x0e6f/0x015b,0x0e6f/0x015c,0x0e6f/0x015d,0x0e6f/0x015f,0x0e6f/0x0160,0x0e6f/0x0161,0x0e6f/0x0162,0x0e6f/0x0163,0x0e6f/0x0164,0x0e6f/0x0165,0x0e6f/0x0166,0x0e6f/0x0167,0x0e6f/0x0205,0x0e6f/0x0206,0x0e6f/0x0246,0x0e6f/0x0261,0x0e6f/0x0262,0x0e6f/0x02a0,0x0e6f/0x02a1,0x0e6f/0x02a2,0x0e6f/0x02a3,0x0e6f/0x02a4,0x0e6f/0x02a5,0x0e6f/0x02a6,0x0e6f/0x02a7,0x0e6f/0x02a8,0x0e6f/0x02a9,0x0e6f/0x02aa,0x0e6f/0x02ab,0x0e6f/0x02ac,0x0e6f/0x02ad,0x0e6f/0x02ae,0x0e6f/0x02af,0x0e6f/0x02b0,0x0e6f/0x02b1,0x0e6f/0x02b3,0x0e6f/0x02b5,0x0e6f/0x02b6,0x0e6f/0x02bd,0x0e6f/0x02be,0x0e6f/0x02bf,0x0e6f/0x02c0,0x0e6f/0x02c1,0x0e6f/0x02c2,0x0e6f/0x02c3,0x0e6f/0x02c4,0x0e6f/0x02c5,0x0e6f/0x02c6,0x0e6f/0x02c7,0x0e6f/0x02c8,0x0e6f/0x02c9,0x0e6f/0x02ca,0x0e6f/0x02cb,0x0e6f/0x02cd,0x0e6f/0x02ce,0x0e6f/0x02cf,0x0e6f/0x02d5,0x0e6f/0x0346,0x0e6f/0x0446,0x0e6f/0x02da,0x0e6f/0x02d6,0x0e6f/0x02d9,0x0f0d/0x0063,0x0f0d/0x0067,0x0f0d/0x0078,0x0f0d/0x00c5,0x0f0d/0x0150,0x10f5/0x7009,0x10f5/0x7013,0x1532/0x0a00,0x1532/0x0a03,0x1532/0x0a14,0x1532/0x0a15,0x20d6/0x2001,0x20d6/0x2002,0x20d6/0x2003,0x20d6/0x2004,0x20d6/0x2005,0x20d6/0x2006,0x20d6/0x2009,0x20d6/0x200a,0x20d6/0x200b,0x20d6/0x200c,0x20d6/0x200d,0x20d6/0x200e,0x20d6/0x200f,0x20d6/0x2011,0x20d6/0x2012,0x20d6/0x2015,0x20d6/0x2016,0x20d6/0x2017,0x20d6/0x2018,0x20d6/0x2019,0x20d6/0x201a,0x20d6/0x4001,0x20d6/0x4002,0x20d6/0x890b,0x24c6/0x541a,0x24c6/0x542a,0x24c6/0x543a,0x24c6/0x551a,0x24c6/0x561a,0x24c6/0x581a,0x24c6/0x591a,0x24c6/0x592a,0x24c6/0x791a,0x2dc8/0x2002,0x2dc8/0x3106,0x2e24/0x0652,0x2e24/0x1618,0x2e24/0x1688,0x146b/0x0611,0x0000/0x0000,0x045e/0x02a2,0x0e6f/0x1414,0x0e6f/0x0159,0x24c6/0xfaff,0x0f0d/0x006d,0x0f0d/0x00a4,0x0079/0x1832,0x0079/0x187f,0x0079/0x1883,0x03eb/0xff01,0x0c12/0x0ef8,0x046d/0x1000,0x11ff/0x0511,0x1345/0x6006,0x056e/0x2012,0x146b/0x0602,0x0f0d/0x00ae,0x046d/0x0401,0x046d/0x0301,0x046d/0xcaa3,0x046d/0xc261,0x046d/0x0291,0x0079/0x18d3,0x0f0d/0x00b1,0x0001/0x0001,0x0079/0x188e,0x0079/0x187c,0x0079/0x189c,0x0079/0x1874,0x2f24/0x0050,0x2f24/0x002e,0x2f24/0x0091,0x1430/0x0719,0x0f0d/0x00ed,0x0f0d/0x00c0,0x0e6f/0x0152,0x046d/0x1007,0x0e6f/0x02b8,0x0079/0x18a1,0x0000/0x6686,0x12ab/0x0304,0x1430/0x0291,0x1430/0x02a9,0x1430/0x070b,0x1bad/0x028e,0x1bad/0x02a0,0x1bad/0x5500,0x20ab/0x55ef,0x24c6/0x5509,0x2516/0x0069,0x25b1/0x0360,0x2c22/0x2203,0x2f24/0x0011,0x2f24/0x0053,0x2f24/0x00b7,0x046d/0x0000,0x046d/0x1004,0x046d/0x1008,0x046d/0xf301,0x0738/0x02a0,0x0738/0x7263,0x0738/0xb738,0x0738/0xcb29,0x0738/0xf401,0x0079/0x18c2,0x0079/0x18c8,0x0079/0x18cf,0x0c12/0x0e17,0x0c12/0x0e1c,0x0c12/0x0e22,0x0c12/0x0e30,0xd2d2/0xd2d2,0x0d62/0x9a1a,0x0d62/0x9a1b,0x0e00/0x0e00,0x0e6f/0x012a,0x0e6f/0x02b2,0x0f0d/0x0097,0x0f0d/0x00ba,0x0f0d/0x00d8,0x0fff/0x02a1,0x045e/0x0867,0x16d0/0x0f3f,0x2f24/0x008f,0x0e6f/0xf501,0x057e/0x2006,0x057e/0x2067,0x057e/0x2007,0x057e/0x2066,0x057e/0x2008,0x057e/0x2068,0x057e/0x2009,0x057e/0x2069,0x0f0d/0x00c1,0x0f0d/0x0092,0x0f0d/0x00f6,0x0e6f/0x0180,0x0e6f/0x0181,0x0e6f/0x0184,0x0e6f/0x0185,0x0e6f/0x0186,0x0e6f/0x0187,0x0e6f/0x0188,0x0e6f/0x018c,0x0f0d/0x00aa,0x20d6/0xa711,0x20d6/0xa712,0x20d6/0xa713,0x20d6/0xa714,0x20d6/0xa715,0x20d6/0xa716,0x20d6/0xa718,0x33dd/0x0001,0x33dd/0x0002,0x33dd/0x0003,0x0f0d/0x00f0,0x0000/0x11fb,0x28de/0x1101,0x28de/0x1102,0x28de/0x1105,0x28de/0x1106,0x28de/0x1142,0x28de/0x1201,0x28de/0x1202,0x28de/0x1205,0x28de/0x1302,0x28de/0x1303,0x28de/0x1304,0x2dc8/0x9000,0x2dc8/0x3810,0x2dc8/0x0651,0x2dc8/0x9020,0x2dc8/0x9015,0x2dc8/0x2865,0x1235/0xab12,0x2002/0x9000,0x2dc8/0x9001,0x3820/0x0009,0x2dc8/0x3820,0x2dc8/0x2000,0x2dc8/0x2000,0x2810/0x0009,0x2dc8/0x2830,0x2dc8/0x6002,0x2dc8/0x6102,0x1235/0xab20,0x2820/0x0009,0x2dc8/0x301b,0x2dc8/0x3011,0x2dc8/0x3013,0x2dc8/0x9018,0x2dc8/0x3230,0x05a0/0x3232,0x05a0/0x3232,0x2dc8/0x3100,0x2dc8/0x9012,0x2dc8/0x2862,0x0b05/0x4500,0x0b05/0x4500,0x0b05/0x7905,0x0b05/0x7906,0x0010/0x0082,0x1949/0x0402,0x1949/0x0419,0x0171/0x0419,0x0079/0x1830,0x3250/0x1001,0x3250/0x1001,0x3250/0x1002,0x3250/0x1002,0x24c6/0x891b,0x0c12/0x0ef7,0x04b4/0x010a,0xffff/0xffff,0x20e8/0x5860,0x0926/0x8888,0x0e6f/0x0130,0x0079/0x0011,0x1a34/0xf705,0x1949/0x0402,0x3537/0x1097,0x05ac/0x061a,0x25f0/0x83c1,0x18d1/0x9400,0x18d1/0x9400,0x0428/0x4001,0x0e8f/0x1006,0x0e8f/0x0012,0x0f0d/0x0010,0x0f0d/0x0022,0x0f0d/0x006b,0xdead/0xbeef,0x14d8/0x6208,0x0e8f/0x3013,0x04d8/0x0082,0x05fd/0x3000,0x1949/0x0402,0x056e/0x2003,0x0f30/0x0110,0x22ba/0x1020,0x046d/0xc219,0x046d/0xc216,0x046d/0xc216,0x046d/0xc219,0x046d/0xc218,0x046d/0xc211,0x24c6/0x892b,0x24c6/0x892a,0x24c6/0x891a,0x0738/0x5266,0x0738/0x3384,0x0738/0x3480,0x0738/0x8818,0x0078/0x0006,0x045e/0x000e,0x045e/0x0285,0x045e/0x0289,0x045e/0x0289,0x20d6/0x0dad,0x146b/0x0c01,0x0810/0xe501,0x0955/0x7214,0x0955/0x7214,0x124b/0x4d01,0x1345/0x3008,0x0079/0x1843,0x0079/0x1844,0x057e/0x2019,0x057e/0x2019,0x057e/0x201e,0x057e/0x2017,0x057e/0x2017,0x057e/0x2017,0x057e/0x0306,0x057e/0x0330,0x057e/0x0306,0x050d/0x0803,0x2836/0x0001,0x2836/0x0001,0x045e/0x0202,0x11ff/0x3341,0x0e8f/0x0003,0x054c/0x0cda,0x0f30/0x1112,0x2c22/0x2012,0x2c22/0x2010,0x1532/0x0402,0x1532/0x0705,0x1532/0x0900,0x1532/0x0900,0xf000/0x0003,0x0079/0x0011,0x1a34/0x0809,0x7545/0x1122,0x06a3/0xf623,0x06a3/0xff0c,0x06a3/0x040c,0x06a3/0x0109,0x06a3/0x040b,0x06a3/0xf518,0x16c0/0x0487,0x28de/0x11fc,0x0111/0x1431,0x0111/0x1419,0x6666/0x8804,0xf000/0x00f1,0x044f/0xb320,0x044f/0xb323,0x044f/0xb300,0x044f/0xd009,0x044f/0xd008,0x12bd/0xd015,0x14d8/0xcd07,0x0079/0x0011,0x05ac/0x3232,0x0c45/0x4320,0x2717/0x3144,0x16c0/0x05e1,0x6666/0x0667,0x0583/0x2060,0x07b5/0x0315,0x289b/0x0080,0x289b/0x0003,0x289b/0x0060,";

/// `KEY=value` split at its first `=`.
pub open spec fn split_assignment(w: Seq<char>) -> Option<(Seq<char>, Seq<char>)> {
    match first_index(w, |c: char| c == '=') {
        Some(k) => Some((w.take(k), w.skip(k + 1))),
        None => None,
    }
}

/// The `KEY=value` settings among `ws`, in order; other words are skipped.
pub open spec fn env_assignments(ws: Seq<Seq<char>>) -> Seq<(Seq<char>, Seq<char>)>
    decreases ws.len(),
{
    if ws.len() == 0 {
        Seq::empty()
    } else {
        env_assignments(ws.drop_last()) + match split_assignment(ws.last()) {
            Some(p) => seq![p],
            None => Seq::empty(),
        }
    }
}

/// Splits a `KEY=value` word at its first `=`.
pub fn split_once_eq(w: &str) -> (res: Option<(String, String)>)
    ensures
        match res {
            Some((k, v)) => split_assignment(w@) == Some((k@, v@)),
            None => split_assignment(w@) is None,
        },
{
    let n = w.unicode_len();
    let ghost p = |c: char| c == '=';
    let mut k: usize = 0;
    while k < n
        invariant
            n == w@.len(),
            k <= n,
            p == (|c: char| c == '='),
            forall|m: int| 0 <= m < k ==> !p(#[trigger] w@[m]),
        decreases n - k,
    {
        if w.get_char(k) == '=' {
            proof {
                lemma_first_index(w@, p, k as int);
            }
            let key = String::from_str(w.substring_char(0, k));
            let value = String::from_str(w.substring_char(k + 1, n));
            proof {
                assert(key@ =~= w@.take(k as int));
                assert(value@ =~= w@.skip(k + 1));
            }
            return Some((key, value));
        }
        k += 1;
    }
    proof {
        lemma_first_index(w@, p, k as int);
    }
    None
}

/// The handler's extra environment settings.
pub fn handler_env_pairs(env: &str) -> (res: Vec<(String, String)>)
    ensures
        pair_views(res@) == env_assignments(words(env@)),
{
    let parts = split_whitespace(env);
    let ghost ws = words(env@);
    let mut res: Vec<(String, String)> = Vec::new();
    let mut i: usize = 0;
    proof {
        assert(ws.take(0) =~= Seq::<Seq<char>>::empty());
        assert(pair_views(res@) =~= Seq::<(Seq<char>, Seq<char>)>::empty());
    }
    while i < parts.len()
        invariant
            string_views(parts@) == ws,
            i <= parts@.len(),
            pair_views(res@) == env_assignments(ws.take(i as int)),
        decreases parts.len() - i,
    {
        proof {
            assert(ws.take(i + 1).drop_last() =~= ws.take(i as int));
            assert(ws.take(i + 1).last() == parts@[i as int]@);
        }
        let ghost before = res@;
        match split_once_eq(parts[i].as_str()) {
            Some(kv) => {
                res.push(kv);
                proof {
                    assert(pair_views(res@) =~= pair_views(before).push((kv.0@, kv.1@)));
                }
            },
            None => {},
        }
        proof {
            assert(pair_views(res@) =~= env_assignments(ws.take(i + 1)));
        }
        i += 1;
    }
    proof {
        assert(ws.take(i as int) =~= ws);
    }
    res
}

/// Where the overridden SDL2 library lies.
pub open spec fn sdl_library(o: SDL2Override, steam: Seq<char>) -> Seq<char> {
    match o {
        SDL2Override::Srt => joined(steam, "bin32/steam-runtime/usr/lib/i386-linux-gnu/libSDL2-2.0.so.0"@),
        SDL2Override::Sys => "/usr/lib/libSDL2.so"@,
        SDL2Override::No => Seq::empty(),
    }
}

/// The Proton build a Windows game runs with.
pub open spec fn proton_path(version: Seq<char>) -> Seq<char> {
    if version.len() == 0 {
        "GE-Proton"@
    } else {
        version
    }
}

/// The environment every instance's command starts with.
pub open spec fn base_envs(h: LaunchHandler, cfg: LaunchConfig, steam: Seq<char>, pfx: Seq<char>) -> Seq<(Seq<char>, Seq<char>)> {
    let fixed = seq![
        ("SDL_JOYSTICK_HIDAPI"@, "0"@),
        ("ENABLE_GAMESCOPE_WSI"@, "0"@),
        ("PROTON_DISABLE_HIDRAW"@, "1"@)
    ];
    let sdl = if h.sdl2_override != SDL2Override::No {
        seq![("SDL_DYNAMIC_API"@, sdl_library(h.sdl2_override, steam))]
    } else {
        Seq::empty()
    };
    let proton = if h.win {
        seq![
            ("WINEPREFIX"@, pfx),
            ("PROTON_VERB"@, "run"@),
            ("PROTONPATH"@, proton_path(cfg.proton_version@)),
            ("PROTON_DISABLE_HIDRAW"@, "1"@)
        ] + if cfg.proton_wow64 {
            seq![("PROTON_USE_WOW64"@, "1"@)]
        } else {
            Seq::empty()
        }
    } else {
        Seq::empty()
    };
    let pads = (if cfg.pad_filter_type != PadFilterType::NoSteamInput {
        seq![("SDL_GAMECONTROLLER_ALLOW_STEAM_VIRTUAL_GAMEPAD"@, "1"@)]
    } else {
        Seq::empty()
    }) + if cfg.pad_filter_type == PadFilterType::OnlySteamInput {
        seq![("SDL_GAMECONTROLLER_IGNORE_DEVICES"@, SDL_GAMECONTROLLER_IGNORE_DEVICES@)]
    } else {
        Seq::empty()
    };
    fixed + sdl + proton + pads + env_assignments(words(h.env@))
}

#[verifier::spinoff_prover]
fn build_base_envs(h: &LaunchHandler, cfg: &LaunchConfig, paths: &LaunchPaths, pfx: &str) -> (res: Vec<(String, String)>)
    ensures
        pair_views(res@) == base_envs(*h, *cfg, paths.steam@, pfx@),
{
    let mut envs: Vec<(String, String)> = Vec::new();
    push_env(&mut envs, "SDL_JOYSTICK_HIDAPI", "0");
    push_env(&mut envs, "ENABLE_GAMESCOPE_WSI", "0");
    push_env(&mut envs, "PROTON_DISABLE_HIDRAW", "1");
    let ghost fixed = pair_views(envs@);
    if h.sdl2_override != SDL2Override::No {
        let lib = match h.sdl2_override {
            SDL2Override::Srt => join_path(paths.steam.as_str(), "bin32/steam-runtime/usr/lib/i386-linux-gnu/libSDL2-2.0.so.0"),
            SDL2Override::Sys => String::from_str("/usr/lib/libSDL2.so"),
            SDL2Override::No => String::new(),
        };
        proof {
            if h.sdl2_override == SDL2Override::No {
                assert(lib@ =~= Seq::<char>::empty());
            }
        }
        push_env(&mut envs, "SDL_DYNAMIC_API", lib.as_str());
    }
    let ghost with_sdl = pair_views(envs@);
    if h.win {
        push_env(&mut envs, "WINEPREFIX", pfx);
        push_env(&mut envs, "PROTON_VERB", "run");
        if cfg.proton_version.unicode_len() == 0 {
            push_env(&mut envs, "PROTONPATH", "GE-Proton");
        } else {
            push_env(&mut envs, "PROTONPATH", cfg.proton_version.as_str());
        }
        push_env(&mut envs, "PROTON_DISABLE_HIDRAW", "1");
        if cfg.proton_wow64 {
            push_env(&mut envs, "PROTON_USE_WOW64", "1");
        }
    }
    let ghost with_proton = pair_views(envs@);
    if cfg.pad_filter_type != PadFilterType::NoSteamInput {
        push_env(&mut envs, "SDL_GAMECONTROLLER_ALLOW_STEAM_VIRTUAL_GAMEPAD", "1");
    }
    if cfg.pad_filter_type == PadFilterType::OnlySteamInput {
        push_env(&mut envs, "SDL_GAMECONTROLLER_IGNORE_DEVICES", SDL_GAMECONTROLLER_IGNORE_DEVICES);
    }
    let ghost with_pads = pair_views(envs@);
    let mut extra = handler_env_pairs(h.env.as_str());
    let ghost extra_v = pair_views(extra@);
    envs.append(&mut extra);
    proof {
        assert(pair_views(envs@) =~= with_pads + extra_v);
        assert(pair_views(envs@) =~= base_envs(*h, *cfg, paths.steam@, pfx@));
    }
    envs
}

/// Whether a window is shown at its `--libinput-hold-dev` keyboards and mice.
pub open spec fn kbm_flags(kbm_support: bool, enabled: Seq<RunningInputDevice>) -> Seq<Seq<char>> {
    if kbm_support {
        (if has_type(enabled, DeviceType::Keyboard) {
            seq!["--backend-disable-keyboard"@]
        } else {
            Seq::empty()
        }) + (if has_type(enabled, DeviceType::Mouse) {
            seq!["--backend-disable-mouse"@]
        } else {
            Seq::empty()
        }) + if kbm_list(enabled).len() > 0 {
            seq!["--libinput-hold-dev="@ + kbm_list(enabled), "--grab"@]
        } else {
            Seq::empty()
        }
    } else {
        Seq::empty()
    }
}

/// gamescope's options for an instance's window.
pub open spec fn window_flags(h: LaunchHandler, cfg: LaunchConfig, ws: WindowPostion, display_index: nat) -> Seq<Seq<char>> {
    let resize: Seq<Seq<char>> = if cfg.gamescope_resize_support {
        seq!["--nested-follow-window-scale"@, "1"@]
    } else {
        Seq::empty()
    };
    let fullscreen: Seq<Seq<char>> = if cfg.gamescope_force_fullscreen {
        seq!["--force-windows-fullscreen"@]
    } else {
        Seq::empty()
    };
    let mango: Seq<Seq<char>> = if h.use_mangohud {
        seq!["--mangoapp"@]
    } else {
        Seq::empty()
    };
    let size: Seq<Seq<char>> = seq!["-W"@, decimal(ws.w as nat), "-H"@, decimal(ws.h as nat)];
    let grab: Seq<Seq<char>> = if cfg.gamescope_force_grab_cursor {
        seq!["--force-grab-cursor"@]
    } else {
        Seq::empty()
    };
    let sdl: Seq<Seq<char>> = if cfg.gamescope_sdl_backend {
        seq!["--backend=sdl"@, "--display-index="@ + decimal(display_index)]
    } else {
        Seq::empty()
    };
    resize + fullscreen + mango + size + grab + sdl
}

/// gamescope's own options for an instance, up to and including the `--`
/// that ends them.
pub open spec fn gamescope_flags(
    h: LaunchHandler,
    cfg: LaunchConfig,
    ws: WindowPostion,
    display_index: nat,
    enabled: Seq<RunningInputDevice>,
) -> Seq<Seq<char>> {
    window_flags(h, cfg, ws, display_index) + kbm_flags(cfg.kbm_support, enabled) + seq!["--"@]
}

fn build_window_flags(h: &LaunchHandler, cfg: &LaunchConfig, ws: WindowPostion, display_index: usize) -> (res: Vec<String>)
    ensures
        string_views(res@) == window_flags(*h, *cfg, ws, display_index as nat),
{
    let mut res: Vec<String> = Vec::new();
    let ghost mut want: Seq<Seq<char>> = Seq::empty();
    proof {
        assert(string_views(res@) =~= want);
    }
    if cfg.gamescope_resize_support {
        push_arg(&mut res, "--nested-follow-window-scale");
        push_arg(&mut res, "1");
        proof {
            want = want + seq!["--nested-follow-window-scale"@, "1"@];
            assert(string_views(res@) =~= want);
        }
    }
    if cfg.gamescope_force_fullscreen {
        push_arg(&mut res, "--force-windows-fullscreen");
        proof {
            want = want + seq!["--force-windows-fullscreen"@];
            assert(string_views(res@) =~= want);
        }
    }
    if h.use_mangohud {
        push_arg(&mut res, "--mangoapp");
        proof {
            want = want + seq!["--mangoapp"@];
            assert(string_views(res@) =~= want);
        }
    }
    push_arg(&mut res, "-W");
    push_string(&mut res, decimal_string(ws.w as u64));
    push_arg(&mut res, "-H");
    push_string(&mut res, decimal_string(ws.h as u64));
    proof {
        want = want + seq!["-W"@, decimal(ws.w as nat), "-H"@, decimal(ws.h as nat)];
        assert(string_views(res@) =~= want);
    }
    if cfg.gamescope_force_grab_cursor {
        push_arg(&mut res, "--force-grab-cursor");
        proof {
            want = want + seq!["--force-grab-cursor"@];
            assert(string_views(res@) =~= want);
        }
    }
    if cfg.gamescope_sdl_backend {
        push_arg(&mut res, "--backend=sdl");
        let mut idx = String::from_str("--display-index=");
        push_decimal(&mut idx, display_index as u64);
        push_string(&mut res, idx);
        proof {
            want = want + seq!["--backend=sdl"@, "--display-index="@ + decimal(display_index as nat)];
            assert(string_views(res@) =~= want);
        }
    }
    proof {
        assert(want =~= window_flags(*h, *cfg, ws, display_index as nat));
    }
    res
}

fn build_kbm_flags(
    kbm_support: bool,
    enabled_idx: &Vec<usize>,
    inputs: &Vec<RunningInputDevice>,
    Ghost(enabled): Ghost<Seq<RunningInputDevice>>,
) -> (res: Vec<String>)
    requires
        enabled_idx@.len() == enabled.len(),
        forall|k: int| 0 <= k < enabled_idx@.len() ==> (#[trigger] enabled_idx@[k]) < inputs@.len() && inputs@[enabled_idx@[k] as int]
            == enabled[k],
    ensures
        string_views(res@) == kbm_flags(kbm_support, enabled),
{
    let mut res: Vec<String> = Vec::new();
    if !kbm_support {
        proof {
            assert(string_views(res@) =~= Seq::<Seq<char>>::empty());
        }
        return res;
    }
    let mut has_keyboard = false;
    let mut has_mouse = false;
    let mut kbms = String::new();
    let mut i: usize = 0;
    proof {
        assert(enabled.take(0) =~= Seq::<RunningInputDevice>::empty());
        assert(kbms@ =~= kbm_list(enabled.take(0)));
    }
    while i < enabled_idx.len()
        invariant
            enabled_idx@.len() == enabled.len(),
            forall|k: int| 0 <= k < enabled_idx@.len() ==> (#[trigger] enabled_idx@[k]) < inputs@.len()
                && inputs@[enabled_idx@[k] as int] == enabled[k],
            i <= enabled.len(),
            has_keyboard == has_type(enabled.take(i as int), DeviceType::Keyboard),
            has_mouse == has_type(enabled.take(i as int), DeviceType::Mouse),
            kbms@ == kbm_list(enabled.take(i as int)),
        decreases enabled_idx.len() - i,
    {
        let dev = &inputs[enabled_idx[i]];
        let ghost prev = enabled.take(i as int);
        proof {
            assert(enabled.take(i + 1) =~= prev.push(enabled[i as int]));
            assert(enabled.take(i + 1).drop_last() =~= prev);
            assert(*dev == enabled[i as int]);
        }
        if dev.device_type == DeviceType::Keyboard {
            has_keyboard = true;
        } else if dev.device_type == DeviceType::Mouse {
            has_mouse = true;
        }
        if dev.device_type == DeviceType::Keyboard || dev.device_type == DeviceType::Mouse {
            kbms.append(dev.path.as_str());
            proof {
                reveal_strlit(",");
                assert(","@ =~= single(','));
            }
            kbms.append(",");
        }
        proof {
            let next = enabled.take(i + 1);
            assert(has_type(next, DeviceType::Keyboard) == (has_type(prev, DeviceType::Keyboard) || dev.device_type
                == DeviceType::Keyboard)) by {
                if has_type(prev, DeviceType::Keyboard) {
                    let k = choose|k: int| 0 <= k < prev.len() && (#[trigger] prev[k]).device_type == DeviceType::Keyboard;
                    assert(next[k] == prev[k]);
                }
                if has_type(next, DeviceType::Keyboard) {
                    let k = choose|k: int| 0 <= k < next.len() && (#[trigger] next[k]).device_type == DeviceType::Keyboard;
                    if k < prev.len() {
                        assert(prev[k] == next[k]);
                    }
                }
                if dev.device_type == DeviceType::Keyboard {
                    assert(next[i as int] == *dev);
                }
            }
            assert(has_type(next, DeviceType::Mouse) == (has_type(prev, DeviceType::Mouse) || dev.device_type
                == DeviceType::Mouse)) by {
                if has_type(prev, DeviceType::Mouse) {
                    let k = choose|k: int| 0 <= k < prev.len() && (#[trigger] prev[k]).device_type == DeviceType::Mouse;
                    assert(next[k] == prev[k]);
                }
                if has_type(next, DeviceType::Mouse) {
                    let k = choose|k: int| 0 <= k < next.len() && (#[trigger] next[k]).device_type == DeviceType::Mouse;
                    if k < prev.len() {
                        assert(prev[k] == next[k]);
                    }
                }
                if dev.device_type == DeviceType::Mouse {
                    assert(next[i as int] == *dev);
                }
            }
            assert(kbms@ =~= kbm_list(next));
        }
        i += 1;
    }
    proof {
        assert(enabled.take(i as int) =~= enabled);
    }
    if has_keyboard {
        push_arg(&mut res, "--backend-disable-keyboard");
    }
    if has_mouse {
        push_arg(&mut res, "--backend-disable-mouse");
    }
    if kbms.unicode_len() > 0 {
        let mut hold = String::from_str("--libinput-hold-dev=");
        hold.append(kbms.as_str());
        push_string(&mut res, hold);
        push_arg(&mut res, "--grab");
    }
    proof {
        assert(string_views(res@) =~= kbm_flags(kbm_support, enabled));
    }
    res
}

fn build_gamescope_flags(
    h: &LaunchHandler,
    cfg: &LaunchConfig,
    ws: WindowPostion,
    display_index: usize,
    enabled_idx: &Vec<usize>,
    inputs: &Vec<RunningInputDevice>,
    Ghost(enabled): Ghost<Seq<RunningInputDevice>>,
) -> (res: Vec<String>)
    requires
        enabled_idx@.len() == enabled.len(),
        forall|k: int| 0 <= k < enabled_idx@.len() ==> (#[trigger] enabled_idx@[k]) < inputs@.len() && inputs@[enabled_idx@[k] as int]
            == enabled[k],
    ensures
        string_views(res@) == gamescope_flags(*h, *cfg, ws, display_index as nat, enabled),
{
    let mut res = build_window_flags(h, cfg, ws, display_index);
    let ghost before_kbm = string_views(res@);
    let mut kbm = build_kbm_flags(cfg.kbm_support, enabled_idx, inputs, Ghost(enabled));
    let ghost kbm_v = string_views(kbm@);
    res.append(&mut kbm);
    proof {
        assert(string_views(res@) =~= before_kbm + kbm_v);
    }
    push_arg(&mut res, "--");
    res
}

/// Whether bwrap hides the device from the instance: it is disabled, or it is
/// a gamepad that is not one of the instance's.
pub open spec fn masked(dev: RunningInputDevice, enabled: Seq<RunningInputDevice>) -> bool {
    !dev.enabled || (!has_hash(enabled, dev.hash) && dev.device_type == DeviceType::Gamepad)
}

pub open spec fn mask_args(dev: RunningInputDevice, enabled: Seq<RunningInputDevice>) -> Seq<Seq<char>> {
    if masked(dev, enabled) {
        seq!["--bind"@, "/dev/null"@, dev.path@]
    } else {
        Seq::empty()
    }
}

/// bwrap's mounts that hide other players' devices, in device order.
pub open spec fn device_masks(inputs: Seq<RunningInputDevice>, enabled: Seq<RunningInputDevice>) -> Seq<Seq<char>> {
    Seq::new(inputs.len(), |k: int| mask_args(inputs[k], enabled)).flatten()
}

fn build_device_masks(
    inputs: &Vec<RunningInputDevice>,
    enabled_idx: &Vec<usize>,
    Ghost(enabled): Ghost<Seq<RunningInputDevice>>,
) -> (res: Vec<String>)
    requires
        enabled_idx@.len() == enabled.len(),
        forall|k: int| 0 <= k < enabled_idx@.len() ==> (#[trigger] enabled_idx@[k]) < inputs@.len() && inputs@[enabled_idx@[k] as int]
            == enabled[k],
    ensures
        string_views(res@) == device_masks(inputs@, enabled),
{
    let mut res: Vec<String> = Vec::new();
    let mut i: usize = 0;
    proof {
        assert(string_views(res@) =~= Seq::<Seq<Seq<char>>>::empty().flatten());
        assert(Seq::new(0, |k: int| mask_args(inputs@[k], enabled)) =~= Seq::<Seq<Seq<char>>>::empty());
    }
    while i < inputs.len()
        invariant
            i <= inputs@.len(),
            enabled_idx@.len() == enabled.len(),
            forall|k: int| 0 <= k < enabled_idx@.len() ==> (#[trigger] enabled_idx@[k]) < inputs@.len()
                && inputs@[enabled_idx@[k] as int] == enabled[k],
            string_views(res@) == Seq::new(i as nat, |k: int| mask_args(inputs@[k], enabled)).flatten(),
        decreases inputs.len() - i,
    {
        let dev = &inputs[i];
        let mut in_enabled = false;
        let mut j: usize = 0;
        while j < enabled_idx.len()
            invariant
                j <= enabled.len(),
                enabled_idx@.len() == enabled.len(),
                forall|k: int| 0 <= k < enabled_idx@.len() ==> (#[trigger] enabled_idx@[k]) < inputs@.len()
                    && inputs@[enabled_idx@[k] as int] == enabled[k],
                in_enabled == exists|k: int| 0 <= k < j && (#[trigger] enabled[k]).hash == dev.hash,
            decreases enabled_idx.len() - j,
        {
            if inputs[enabled_idx[j]].hash == dev.hash {
                in_enabled = true;
            }
            j += 1;
        }
        let ghost before = string_views(res@);
        if !dev.enabled || (!in_enabled && dev.device_type == DeviceType::Gamepad) {
            push_arg(&mut res, "--bind");
            push_arg(&mut res, "/dev/null");
            push_string(&mut res, dev.path.clone());
        }
        proof {
            let f = |k: int| mask_args(inputs@[k], enabled);
            assert(in_enabled == has_hash(enabled, dev.hash));
            assert(string_views(res@) =~= before + f(i as int));
            assert(Seq::new((i + 1) as nat, f) =~= Seq::new(i as nat, f).push(f(i as int)));
            Seq::new(i as nat, f).lemma_flatten_push(f(i as int));
        }
        i += 1;
    }
    res
}

/// bwrap's mount for one path the handler hides from the game.
pub open spec fn null_bind(subpath: Seq<char>, kind: PathKind, gamedir: Seq<char>, party: Seq<char>) -> Seq<Seq<char>> {
    let p = joined(gamedir, subpath);
    match kind {
        PathKind::File => seq!["--bind"@, "/dev/null"@, p],
        PathKind::Dir => seq!["--bind"@, joined(party, "tmp/null"@), p],
        PathKind::Missing => Seq::empty(),
    }
}

pub open spec fn null_binds(subpaths: Seq<String>, kinds: Seq<PathKind>, gamedir: Seq<char>, party: Seq<char>) -> Seq<Seq<char>> {
    Seq::new(subpaths.len(), |k: int| null_bind(subpaths[k]@, kinds[k], gamedir, party)).flatten()
}

fn build_null_binds(subpaths: &Vec<String>, kinds: &Vec<PathKind>, gamedir: &str, party: &str) -> (res: Vec<String>)
    requires
        kinds@.len() == subpaths@.len(),
    ensures
        string_views(res@) == null_binds(subpaths@, kinds@, gamedir@, party@),
{
    let mut res: Vec<String> = Vec::new();
    let mut i: usize = 0;
    proof {
        assert(Seq::new(0, |k: int| null_bind(subpaths@[k]@, kinds@[k], gamedir@, party@)) =~= Seq::<Seq<Seq<char>>>::empty());
        assert(string_views(res@) =~= Seq::<Seq<Seq<char>>>::empty().flatten());
    }
    while i < subpaths.len()
        invariant
            i <= subpaths@.len(),
            kinds@.len() == subpaths@.len(),
            string_views(res@) == Seq::new(i as nat, |k: int| null_bind(subpaths@[k]@, kinds@[k], gamedir@, party@)).flatten(),
        decreases subpaths.len() - i,
    {
        let ghost before = string_views(res@);
        let p = join_path(gamedir, subpaths[i].as_str());
        match kinds[i] {
            PathKind::File => {
                push_arg(&mut res, "--bind");
                push_arg(&mut res, "/dev/null");
                push_string(&mut res, p);
            },
            PathKind::Dir => {
                push_arg(&mut res, "--bind");
                push_string(&mut res, join_path(party, "tmp/null"));
                push_string(&mut res, p);
            },
            PathKind::Missing => {},
        }
        proof {
            let f = |k: int| null_bind(subpaths@[k]@, kinds@[k], gamedir@, party@);
            assert(string_views(res@) =~= before + f(i as int));
            assert(Seq::new((i + 1) as nat, f) =~= Seq::new(i as nat, f).push(f(i as int)));
            Seq::new(i as nat, f).lemma_flatten_push(f(i as int));
        }
        i += 1;
    }
    res
}

/// What runs the game inside bwrap: `umu-run` for Windows games, else the
/// handler's Steam runtime entry point, if any.
pub open spec fn runtime_args(win: bool, runtime: Seq<char>, paths: LaunchPaths, facts: LaunchFacts) -> Seq<Seq<char>> {
    let steam = paths.steam@;
    if win {
        seq![paths.umu_run@]
    } else if runtime == "scout"@ {
        seq![joined(steam, "bin32/steam-runtime/run.sh"@)]
    } else if runtime == "soldier"@ {
        seq![joined(steam, "steam/steamapps/common/SteamLinuxRuntime_soldier/_v2-entry-point"@), "--"@]
    } else if runtime == "sniper"@ {
        (if facts.sniper_exists {
            seq![joined(steam, "steam/steamapps/common/SteamLinuxRuntime_sniper/_v2-entry-point"@)]
        } else if facts.sniper_arm_exists {
            seq![joined(steam, "steam/steamapps/common/SteamLinuxRuntime_sniper-arm64/_v2-entry-point"@)]
        } else {
            Seq::empty()
        }) + seq!["--"@]
    } else if runtime == "steamrt4"@ {
        seq![joined(steam, "steam/steamapps/common/SteamLinuxRuntime_4/_v2-entry-point"@), "--"@]
    } else {
        Seq::empty()
    }
}

fn build_runtime_args(win: bool, runtime: &str, paths: &LaunchPaths, facts: &LaunchFacts) -> (res: Vec<String>)
    ensures
        string_views(res@) == runtime_args(win, runtime@, *paths, *facts),
{
    let mut res: Vec<String> = Vec::new();
    let steam = paths.steam.as_str();
    if win {
        push_string(&mut res, paths.umu_run.clone());
    } else if str_eq(runtime, "scout") {
        push_string(&mut res, join_path(steam, "bin32/steam-runtime/run.sh"));
    } else if str_eq(runtime, "soldier") {
        push_string(&mut res, join_path(steam, "steam/steamapps/common/SteamLinuxRuntime_soldier/_v2-entry-point"));
        push_arg(&mut res, "--");
    } else if str_eq(runtime, "sniper") {
        if facts.sniper_exists {
            push_string(&mut res, join_path(steam, "steam/steamapps/common/SteamLinuxRuntime_sniper/_v2-entry-point"));
        } else if facts.sniper_arm_exists {
            push_string(&mut res, join_path(steam, "steam/steamapps/common/SteamLinuxRuntime_sniper-arm64/_v2-entry-point"));
        }
        push_arg(&mut res, "--");
    } else if str_eq(runtime, "steamrt4") {
        push_string(&mut res, join_path(steam, "steam/steamapps/common/SteamLinuxRuntime_4/_v2-entry-point"));
        push_arg(&mut res, "--");
    }
    proof {
        assert(string_views(res@) =~= runtime_args(win, runtime@, *paths, *facts));
    }
    res
}

/// What a game argument becomes: a `$` placeholder is filled in, anything
/// else is sanitized as a path.
pub open spec fn substitute(
    a: Seq<char>,
    profname: Seq<char>,
    ws: WindowPostion,
    instance_count: nat,
    display_idx: nat,
    full_count_idx: nat,
    gamedir: Seq<char>,
    handler_dir: Seq<char>,
    win: bool,
) -> Seq<char> {
    if a == "$PROFILE"@ {
        profname
    } else if a == "$WIDTH"@ {
        decimal(ws.w as nat)
    } else if a == "$HEIGHT"@ {
        decimal(ws.h as nat)
    } else if a == "$RESOLUTION"@ {
        decimal(ws.w as nat) + single('x') + decimal(ws.h as nat)
    } else if a == "$INSTANCECOUNT"@ {
        decimal(instance_count)
    } else if a == "$INSTANCENUM"@ {
        decimal(display_idx)
    } else if a == "$FULLCOUNTIDX"@ {
        decimal(full_count_idx)
    } else if a == "$GAMEDIR"@ {
        os_path(gamedir, win)
    } else if a == "$HANDLERDIR"@ {
        os_path(handler_dir, win)
    } else {
        sanitized(a)
    }
}

/// The resolution placeholder is the window's width, an `x`, and its
/// height, as the width and height placeholders give them: the window's
/// width and height in decimal.
pub proof fn lemma_resolution_is_width_by_height(
    profname: Seq<char>,
    ws: WindowPostion,
    instance_count: nat,
    display_idx: nat,
    full_count_idx: nat,
    gamedir: Seq<char>,
    handler_dir: Seq<char>,
    win: bool,
)
    ensures
        substitute("$WIDTH"@, profname, ws, instance_count, display_idx, full_count_idx, gamedir, handler_dir, win)
            == decimal(ws.w as nat),
        substitute("$HEIGHT"@, profname, ws, instance_count, display_idx, full_count_idx, gamedir, handler_dir, win)
            == decimal(ws.h as nat),
        substitute("$RESOLUTION"@, profname, ws, instance_count, display_idx, full_count_idx, gamedir, handler_dir, win)
            == substitute("$WIDTH"@, profname, ws, instance_count, display_idx, full_count_idx, gamedir, handler_dir, win)
            + "x"@ + substitute("$HEIGHT"@, profname, ws, instance_count, display_idx, full_count_idx, gamedir, handler_dir, win),
{
    reveal_strlit("$PROFILE");
    reveal_strlit("$WIDTH");
    reveal_strlit("$HEIGHT");
    reveal_strlit("$RESOLUTION");
    reveal_strlit("x");
    assert("$WIDTH"@ != "$PROFILE"@) by {
        assert("$WIDTH"@[1] != "$PROFILE"@[1]);
    }
    assert("$HEIGHT"@ != "$PROFILE"@) by {
        assert("$HEIGHT"@[1] != "$PROFILE"@[1]);
    }
    assert("$HEIGHT"@ != "$WIDTH"@) by {
        assert("$HEIGHT"@[1] != "$WIDTH"@[1]);
    }
    assert("$RESOLUTION"@ != "$PROFILE"@) by {
        assert("$RESOLUTION"@[1] != "$PROFILE"@[1]);
    }
    assert("$RESOLUTION"@ != "$WIDTH"@) by {
        assert("$RESOLUTION"@[1] != "$WIDTH"@[1]);
    }
    assert("$RESOLUTION"@ != "$HEIGHT"@) by {
        assert("$RESOLUTION"@[1] != "$HEIGHT"@[1]);
    }
    assert("x"@ =~= single('x'));
}

/// Each placeholder stands for its own input: the profile name, the number
/// of instances, the instance's number on its display, its number over all
/// displays, and the game and handler directories in the target's path
/// form.
pub proof fn lemma_placeholders(
    profname: Seq<char>,
    ws: WindowPostion,
    instance_count: nat,
    display_idx: nat,
    full_count_idx: nat,
    gamedir: Seq<char>,
    handler_dir: Seq<char>,
    win: bool,
)
    ensures
        substitute("$PROFILE"@, profname, ws, instance_count, display_idx, full_count_idx, gamedir, handler_dir, win) == profname,
        substitute("$INSTANCECOUNT"@, profname, ws, instance_count, display_idx, full_count_idx, gamedir, handler_dir, win) == decimal(instance_count),
        substitute("$INSTANCENUM"@, profname, ws, instance_count, display_idx, full_count_idx, gamedir, handler_dir, win) == decimal(display_idx),
        substitute("$FULLCOUNTIDX"@, profname, ws, instance_count, display_idx, full_count_idx, gamedir, handler_dir, win) == decimal(full_count_idx),
        substitute("$GAMEDIR"@, profname, ws, instance_count, display_idx, full_count_idx, gamedir, handler_dir, win) == os_path(gamedir, win),
        substitute("$HANDLERDIR"@, profname, ws, instance_count, display_idx, full_count_idx, gamedir, handler_dir, win) == os_path(handler_dir, win),
{
    reveal_strlit("$PROFILE");
    reveal_strlit("$WIDTH");
    reveal_strlit("$HEIGHT");
    reveal_strlit("$RESOLUTION");
    reveal_strlit("$INSTANCECOUNT");
    reveal_strlit("$INSTANCENUM");
    reveal_strlit("$FULLCOUNTIDX");
    reveal_strlit("$GAMEDIR");
    reveal_strlit("$HANDLERDIR");
    assert("$WIDTH"@ != "$PROFILE"@) by {
        assert("$WIDTH"@.len() != "$PROFILE"@.len());
    }
    assert("$HEIGHT"@ != "$PROFILE"@) by {
        assert("$HEIGHT"@.len() != "$PROFILE"@.len());
    }
    assert("$HEIGHT"@ != "$WIDTH"@) by {
        assert("$HEIGHT"@.len() != "$WIDTH"@.len());
    }
    assert("$RESOLUTION"@ != "$PROFILE"@) by {
        assert("$RESOLUTION"@.len() != "$PROFILE"@.len());
    }
    assert("$RESOLUTION"@ != "$WIDTH"@) by {
        assert("$RESOLUTION"@.len() != "$WIDTH"@.len());
    }
    assert("$RESOLUTION"@ != "$HEIGHT"@) by {
        assert("$RESOLUTION"@.len() != "$HEIGHT"@.len());
    }
    assert("$INSTANCECOUNT"@ != "$PROFILE"@) by {
        assert("$INSTANCECOUNT"@.len() != "$PROFILE"@.len());
    }
    assert("$INSTANCECOUNT"@ != "$WIDTH"@) by {
        assert("$INSTANCECOUNT"@.len() != "$WIDTH"@.len());
    }
    assert("$INSTANCECOUNT"@ != "$HEIGHT"@) by {
        assert("$INSTANCECOUNT"@.len() != "$HEIGHT"@.len());
    }
    assert("$INSTANCECOUNT"@ != "$RESOLUTION"@) by {
        assert("$INSTANCECOUNT"@.len() != "$RESOLUTION"@.len());
    }
    assert("$INSTANCENUM"@ != "$PROFILE"@) by {
        assert("$INSTANCENUM"@.len() != "$PROFILE"@.len());
    }
    assert("$INSTANCENUM"@ != "$WIDTH"@) by {
        assert("$INSTANCENUM"@.len() != "$WIDTH"@.len());
    }
    assert("$INSTANCENUM"@ != "$HEIGHT"@) by {
        assert("$INSTANCENUM"@.len() != "$HEIGHT"@.len());
    }
    assert("$INSTANCENUM"@ != "$RESOLUTION"@) by {
        assert("$INSTANCENUM"@.len() != "$RESOLUTION"@.len());
    }
    assert("$INSTANCENUM"@ != "$INSTANCECOUNT"@) by {
        assert("$INSTANCENUM"@.len() != "$INSTANCECOUNT"@.len());
    }
    assert("$FULLCOUNTIDX"@ != "$PROFILE"@) by {
        assert("$FULLCOUNTIDX"@.len() != "$PROFILE"@.len());
    }
    assert("$FULLCOUNTIDX"@ != "$WIDTH"@) by {
        assert("$FULLCOUNTIDX"@.len() != "$WIDTH"@.len());
    }
    assert("$FULLCOUNTIDX"@ != "$HEIGHT"@) by {
        assert("$FULLCOUNTIDX"@.len() != "$HEIGHT"@.len());
    }
    assert("$FULLCOUNTIDX"@ != "$RESOLUTION"@) by {
        assert("$FULLCOUNTIDX"@.len() != "$RESOLUTION"@.len());
    }
    assert("$FULLCOUNTIDX"@ != "$INSTANCECOUNT"@) by {
        assert("$FULLCOUNTIDX"@.len() != "$INSTANCECOUNT"@.len());
    }
    assert("$FULLCOUNTIDX"@ != "$INSTANCENUM"@) by {
        assert("$FULLCOUNTIDX"@.len() != "$INSTANCENUM"@.len());
    }
    assert("$GAMEDIR"@ != "$PROFILE"@) by {
        assert("$GAMEDIR"@[1] != "$PROFILE"@[1]);
    }
    assert("$GAMEDIR"@ != "$WIDTH"@) by {
        assert("$GAMEDIR"@.len() != "$WIDTH"@.len());
    }
    assert("$GAMEDIR"@ != "$HEIGHT"@) by {
        assert("$GAMEDIR"@.len() != "$HEIGHT"@.len());
    }
    assert("$GAMEDIR"@ != "$RESOLUTION"@) by {
        assert("$GAMEDIR"@.len() != "$RESOLUTION"@.len());
    }
    assert("$GAMEDIR"@ != "$INSTANCECOUNT"@) by {
        assert("$GAMEDIR"@.len() != "$INSTANCECOUNT"@.len());
    }
    assert("$GAMEDIR"@ != "$INSTANCENUM"@) by {
        assert("$GAMEDIR"@.len() != "$INSTANCENUM"@.len());
    }
    assert("$GAMEDIR"@ != "$FULLCOUNTIDX"@) by {
        assert("$GAMEDIR"@.len() != "$FULLCOUNTIDX"@.len());
    }
    assert("$HANDLERDIR"@ != "$PROFILE"@) by {
        assert("$HANDLERDIR"@.len() != "$PROFILE"@.len());
    }
    assert("$HANDLERDIR"@ != "$WIDTH"@) by {
        assert("$HANDLERDIR"@.len() != "$WIDTH"@.len());
    }
    assert("$HANDLERDIR"@ != "$HEIGHT"@) by {
        assert("$HANDLERDIR"@.len() != "$HEIGHT"@.len());
    }
    assert("$HANDLERDIR"@ != "$RESOLUTION"@) by {
        assert("$HANDLERDIR"@[1] != "$RESOLUTION"@[1]);
    }
    assert("$HANDLERDIR"@ != "$INSTANCECOUNT"@) by {
        assert("$HANDLERDIR"@.len() != "$INSTANCECOUNT"@.len());
    }
    assert("$HANDLERDIR"@ != "$INSTANCENUM"@) by {
        assert("$HANDLERDIR"@.len() != "$INSTANCENUM"@.len());
    }
    assert("$HANDLERDIR"@ != "$FULLCOUNTIDX"@) by {
        assert("$HANDLERDIR"@.len() != "$FULLCOUNTIDX"@.len());
    }
    assert("$HANDLERDIR"@ != "$GAMEDIR"@) by {
        assert("$HANDLERDIR"@.len() != "$GAMEDIR"@.len());
    }
}

fn substitute_arg(
    a: &String,
    profname: &String,
    ws: WindowPostion,
    instance_count: usize,
    display_idx: usize,
    full_count_idx: usize,
    gamedir: &String,
    handler_dir: &String,
    win: bool,
) -> (res: String)
    ensures
        res@ == substitute(a@, profname@, ws, instance_count as nat, display_idx as nat, full_count_idx as nat, gamedir@,
            handler_dir@, win),
{
    let s = a.as_str();
    if str_eq(s, "$PROFILE") {
        profname.clone()
    } else if str_eq(s, "$WIDTH") {
        decimal_string(ws.w as u64)
    } else if str_eq(s, "$HEIGHT") {
        decimal_string(ws.h as u64)
    } else if str_eq(s, "$RESOLUTION") {
        let mut r = decimal_string(ws.w as u64);
        proof {
            reveal_strlit("x");
            assert("x"@ =~= single('x'));
        }
        r.append("x");
        push_decimal(&mut r, ws.h as u64);
        r
    } else if str_eq(s, "$INSTANCECOUNT") {
        decimal_string(instance_count as u64)
    } else if str_eq(s, "$INSTANCENUM") {
        decimal_string(display_idx as u64)
    } else if str_eq(s, "$FULLCOUNTIDX") {
        decimal_string(full_count_idx as u64)
    } else if str_eq(s, "$GAMEDIR") {
        gamedir.os_fmt(win)
    } else if str_eq(s, "$HANDLERDIR") {
        handler_dir.os_fmt(win)
    } else {
        a.sanitize_path()
    }
}

/// The game's own arguments, placeholders filled in.
pub open spec fn game_args(
    args: Seq<char>,
    profname: Seq<char>,
    ws: WindowPostion,
    instance_count: nat,
    display_idx: nat,
    full_count_idx: nat,
    gamedir: Seq<char>,
    handler_dir: Seq<char>,
    win: bool,
) -> Seq<Seq<char>> {
    words(args).map_values(
        |a: Seq<char>| substitute(a, profname, ws, instance_count, display_idx, full_count_idx, gamedir, handler_dir, win),
    )
}

fn build_game_args(
    args: &str,
    profname: &String,
    ws: WindowPostion,
    instance_count: usize,
    display_idx: usize,
    full_count_idx: usize,
    gamedir: &String,
    handler_dir: &String,
    win: bool,
) -> (res: Vec<String>)
    ensures
        string_views(res@) == game_args(args@, profname@, ws, instance_count as nat, display_idx as nat, full_count_idx as nat,
            gamedir@, handler_dir@, win),
{
    let parts = split_whitespace(args);
    let ghost ws_seq = words(args@);
    let ghost f = |a: Seq<char>| substitute(a, profname@, ws, instance_count as nat, display_idx as nat, full_count_idx as nat,
        gamedir@, handler_dir@, win);
    let mut res: Vec<String> = Vec::new();
    let mut i: usize = 0;
    while i < parts.len()
        invariant
            string_views(parts@) == ws_seq,
            i <= parts@.len(),
            res@.len() == i,
            forall|k: int| 0 <= k < i ==> (#[trigger] res@[k])@ == f(ws_seq[k]),
            f == (|a: Seq<char>| substitute(a, profname@, ws, instance_count as nat, display_idx as nat, full_count_idx as nat,
                gamedir@, handler_dir@, win)),
        decreases parts.len() - i,
    {
        proof {
            assert(ws_seq[i as int] == parts@[i as int]@);
        }
        res.push(substitute_arg(&parts[i], profname, ws, instance_count, display_idx, full_count_idx, gamedir, handler_dir, win));
        i += 1;
    }
    proof {
        assert(string_views(res@) =~= ws_seq.map_values(f));
    }
    res
}

/// The contents of a command plan.
pub struct PlanView {
    pub program: Seq<char>,
    pub cwd: Seq<char>,
    pub envs: Seq<(Seq<char>, Seq<char>)>,
    pub args: Seq<Seq<char>>,
}

pub open spec fn plan_view(p: CommandPlan) -> PlanView {
    PlanView { program: p.program@, cwd: p.cwd@, envs: pair_views(p.envs@), args: string_views(p.args@) }
}

/// An instance's profile directory.
pub open spec fn profile_dir(party: Seq<char>, profname: Seq<char>) -> Seq<char> {
    joined(joined(party, "profiles"@), profname)
}

/// The Wine prefix of an instance: its own when prefixes are separate, else
/// the shared first one.
pub open spec fn prefix_dir(party: Seq<char>, separate: bool, full_count_idx: nat) -> Seq<char> {
    joined(joined(party, "prefixes"@), if separate {
        decimal(full_count_idx + 1)
    } else {
        "1"@
    })
}

/// The environment a per-profile home adds.
pub open spec fn profile_envs(h: LaunchHandler, cfg: LaunchConfig, prof: Seq<char>) -> Seq<(Seq<char>, Seq<char>)> {
    if cfg.profile_unique_dirs && !h.win {
        seq![("HOME"@, joined(prof, "home"@))]
    } else {
        Seq::empty()
    }
}

/// bwrap's mounts that give each profile its own home or Windows user.
pub open spec fn profile_binds(
    h: LaunchHandler,
    cfg: LaunchConfig,
    steam: Seq<char>,
    prof: Seq<char>,
    pfx: Seq<char>,
) -> Seq<Seq<char>> {
    if !cfg.profile_unique_dirs {
        Seq::empty()
    } else if h.win {
        seq!["--bind"@, joined(prof, "windata"@), joined(pfx, "drive_c/users/steamuser"@)]
    } else if h.runtime@.len() > 0 || h.steam_appid is Some {
        seq!["--bind"@, steam, joined(joined(prof, "home"@), ".steam"@)]
    } else {
        Seq::empty()
    }
}

/// The environment the Goldberg Steam emulator reads.
pub open spec fn goldberg_envs(h: LaunchHandler, party: Seq<char>, prof: Seq<char>, profname: Seq<char>) -> Seq<(Seq<char>, Seq<char>)> {
    if h.use_goldberg {
        seq![
            ("GseAppPath"@, joined(party, "goldberg_data"@)),
            ("GseSavePath"@, joined(prof, "steam"@)),
            ("SteamAppUser"@, profname),
            ("SteamUser"@, profname),
            ("SteamClientLaunch"@, "1"@),
            ("SteamEnv"@, "1"@)
        ] + match h.steam_appid {
            Some(id) => seq![("SteamAppId"@, decimal(id as nat)), ("SteamGameId"@, decimal(id as nat))],
            None => Seq::empty(),
        }
    } else {
        Seq::empty()
    }
}

/// bwrap's mounts of the Goldberg emulator over Steam's SDK libraries.
pub open spec fn goldberg_binds(
    win: bool,
    res: Seq<char>,
    pfx: Seq<char>,
    sdk32: Seq<char>,
    sdk64: Seq<char>,
) -> Seq<Seq<char>> {
    seq!["--bind"@, joined(res, "goldberg/linux32"@), sdk32, "--bind"@, joined(res, "goldberg/linux64"@), sdk64] + if win {
        seq!["--bind"@, joined(res, "goldberg/win"@), joined(pfx, "drive_c/Program Files (x86)/Steam"@)]
    } else {
        Seq::empty()
    }
}

pub open spec fn bwrap_head() -> Seq<Seq<char>> {
    seq!["bwrap"@, "--die-with-parent"@, "--dev-bind"@, "/"@, "/"@, "--tmpfs"@, "/tmp"@]
}

/// The command that runs one instance of the game: gamescope, inside it
/// bwrap, inside that the runtime and the game. Fails when the executable is
/// missing, its directory cannot be named, or a Steam SDK link cannot be
/// read for the Goldberg emulator.
pub open spec fn launch_plan(
    h: LaunchHandler,
    cfg: LaunchConfig,
    paths: LaunchPaths,
    gamescope: Seq<char>,
    inputs: Seq<RunningInputDevice>,
    hashes: Seq<u64>,
    profname: Seq<char>,
    display_index: nat,
    instance_count: nat,
    current_display_idx: nat,
    full_count_idx: nat,
    ws: WindowPostion,
    gamedir: Seq<char>,
    facts: LaunchFacts,
) -> Result<PlanView, Seq<char>> {
    let exec_path = joined(gamedir, h.exec_path@);
    let party = paths.party@;
    let prof = profile_dir(party, profname);
    let pfx = prefix_dir(party, cfg.proton_separate_pfxs, full_count_idx);
    let enabled = enabled_devices(hashes, inputs);
    if !facts.exec_exists {
        Err("Executable not found: "@ + exec_path)
    } else if path_parent(exec_path) is None {
        Err("couldn't get parent"@)
    } else if h.use_goldberg && facts.sdk32_link is Err {
        Err("Failed to read sdk32 link: "@ + facts.sdk32_link->Err_0@)
    } else if h.use_goldberg && facts.sdk64_link is Err {
        Err("Failed to read sdk64 link: "@ + facts.sdk64_link->Err_0@)
    } else {
        let goldberg = if h.use_goldberg {
            goldberg_binds(h.win, paths.res@, pfx, facts.sdk32_link->Ok_0@, facts.sdk64_link->Ok_0@)
        } else {
            Seq::empty()
        };
        Ok(
            PlanView {
                program: gamescope,
                cwd: path_parent(exec_path)->0,
                envs: base_envs(h, cfg, paths.steam@, pfx) + profile_envs(h, cfg, prof) + goldberg_envs(h, party, prof, profname),
                args: gamescope_flags(h, cfg, ws, display_index, enabled) + bwrap_head() + device_masks(inputs, enabled)
                    + profile_binds(h, cfg, paths.steam@, prof, pfx) + null_binds(
                    h.game_null_paths@,
                    facts.null_path_kinds@,
                    gamedir,
                    party,
                ) + goldberg + runtime_args(h.win, h.runtime@, paths, facts) + seq![exec_path] + game_args(
                    h.args@,
                    profname,
                    ws,
                    instance_count,
                    current_display_idx,
                    full_count_idx,
                    gamedir,
                    h.path_handler@,
                    h.win,
                ),
            },
        )
    }
}

fn build_profile_binds(
    h: &LaunchHandler,
    cfg: &LaunchConfig,
    steam: &str,
    prof: &str,
    pfx: &str,
) -> (res: Vec<String>)
    ensures
        string_views(res@) == profile_binds(*h, *cfg, steam@, prof@, pfx@),
{
    let mut res: Vec<String> = Vec::new();
    if cfg.profile_unique_dirs {
        if h.win {
            push_arg(&mut res, "--bind");
            push_string(&mut res, join_path(prof, "windata"));
            push_string(&mut res, join_path(pfx, "drive_c/users/steamuser"));
        } else if h.runtime.unicode_len() > 0 || h.steam_appid.is_some() {
            push_arg(&mut res, "--bind");
            push_arg(&mut res, steam);
            let home = join_path(prof, "home");
            push_string(&mut res, join_path(home.as_str(), ".steam"));
        }
    }
    proof {
        assert(string_views(res@) =~= profile_binds(*h, *cfg, steam@, prof@, pfx@));
    }
    res
}

fn build_goldberg_envs(h: &LaunchHandler, party: &str, prof: &str, profname: &String) -> (res: Vec<(String, String)>)
    ensures
        pair_views(res@) == goldberg_envs(*h, party@, prof@, profname@),
{
    let mut envs: Vec<(String, String)> = Vec::new();
    if h.use_goldberg {
        let app = join_path(party, "goldberg_data");
        push_env(&mut envs, "GseAppPath", app.as_str());
        let save = join_path(prof, "steam");
        push_env(&mut envs, "GseSavePath", save.as_str());
        push_env(&mut envs, "SteamAppUser", profname.as_str());
        push_env(&mut envs, "SteamUser", profname.as_str());
        push_env(&mut envs, "SteamClientLaunch", "1");
        push_env(&mut envs, "SteamEnv", "1");
        if let Some(id) = h.steam_appid {
            let ids = decimal_string(id);
            push_env(&mut envs, "SteamAppId", ids.as_str());
            push_env(&mut envs, "SteamGameId", ids.as_str());
        }
    }
    proof {
        assert(pair_views(envs@) =~= goldberg_envs(*h, party@, prof@, profname@));
    }
    envs
}

fn build_goldberg_binds(win: bool, res_dir: &str, pfx: &str, sdk32: &str, sdk64: &str) -> (res: Vec<String>)
    ensures
        string_views(res@) == goldberg_binds(win, res_dir@, pfx@, sdk32@, sdk64@),
{
    let mut res: Vec<String> = Vec::new();
    push_arg(&mut res, "--bind");
    push_string(&mut res, join_path(res_dir, "goldberg/linux32"));
    push_arg(&mut res, sdk32);
    push_arg(&mut res, "--bind");
    push_string(&mut res, join_path(res_dir, "goldberg/linux64"));
    push_arg(&mut res, sdk64);
    if win {
        push_arg(&mut res, "--bind");
        push_string(&mut res, join_path(res_dir, "goldberg/win"));
        push_string(&mut res, join_path(pfx, "drive_c/Program Files (x86)/Steam"));
    }
    proof {
        assert(string_views(res@) =~= goldberg_binds(win, res_dir@, pfx@, sdk32@, sdk64@));
    }
    res
}

fn append_args(out: &mut Vec<String>, more: Vec<String>)
    ensures
        string_views(final(out)@) == string_views(old(out)@) + string_views(more@),
{
    let mut more = more;
    let ghost mv = string_views(more@);
    out.append(&mut more);
    proof {
        assert(string_views(final(out)@) =~= string_views(old(out)@) + mv);
    }
}

fn append_envs(out: &mut Vec<(String, String)>, more: Vec<(String, String)>)
    ensures
        pair_views(final(out)@) == pair_views(old(out)@) + pair_views(more@),
{
    let mut more = more;
    let ghost mv = pair_views(more@);
    out.append(&mut more);
    proof {
        assert(pair_views(final(out)@) =~= pair_views(old(out)@) + mv);
    }
}

/// The command that runs one instance of the game, from the handler, the
/// launcher settings, the instance and what the file system says below the
/// instance's game directory `gamedir` (see `launch_gamedir`).
#[verifier::rlimit(60)]
pub fn generate_launch_command(
    h: &LaunchHandler,
    cfg: &LaunchConfig,
    paths: &LaunchPaths,
    gamescope: &str,
    input_devices: &Vec<RunningInputDevice>,
    instance_devices: &Vec<u64>,
    profname: &String,
    display_index: usize,
    instance_count: usize,
    current_display_idx: usize,
    full_count_idx: usize,
    window_size: WindowPostion,
    gamedir: &String,
    facts: &LaunchFacts,
) -> (res: Result<CommandPlan, String>)
    requires
        facts.null_path_kinds@.len() == h.game_null_paths@.len(),
        full_count_idx < usize::MAX,
    ensures
        match (res, launch_plan(*h, *cfg, *paths, gamescope@, input_devices@, instance_devices@, profname@, display_index as nat,
            instance_count as nat, current_display_idx as nat, full_count_idx as nat, window_size, gamedir@, *facts)) {
            (Ok(p), Ok(v)) => plan_view(p) == v,
            (Err(e), Err(v)) => e@ == v,
            _ => false,
        },
{
    let exec_path = join_path(gamedir.as_str(), h.exec_path.as_str());
    if !facts.exec_exists {
        let mut msg = String::from_str("Executable not found: ");
        msg.append(exec_path.as_str());
        return Err(msg);
    }
    let cwd = match parent_of(exec_path.as_str()) {
        Some(c) => c,
        None => {
            return Err(String::from_str("couldn't get parent"));
        },
    };
    let party = paths.party.as_str();
    let profiles = join_path(party, "profiles");
    let prof = join_path(profiles.as_str(), profname.as_str());
    let prefixes = join_path(party, "prefixes");
    let pfx_name = if cfg.proton_separate_pfxs {
        decimal_string(full_count_idx as u64 + 1)
    } else {
        String::from_str("1")
    };
    let pfx = join_path(prefixes.as_str(), pfx_name.as_str());
    let ghost enabled = enabled_devices(instance_devices@, input_devices@);
    let enabled_idx = enabled_device_indices(instance_devices, input_devices);

    let mut envs = build_base_envs(h, cfg, paths, pfx.as_str());
    if cfg.profile_unique_dirs && !h.win {
        let home = join_path(prof.as_str(), "home");
        push_env(&mut envs, "HOME", home.as_str());
    }
    let ghost envs_mid = pair_views(envs@);
    proof {
        assert(envs_mid =~= base_envs(*h, *cfg, paths.steam@, pfx@) + profile_envs(*h, *cfg, prof@));
    }
    append_envs(&mut envs, build_goldberg_envs(h, party, prof.as_str(), profname));

    let mut args = build_gamescope_flags(h, cfg, window_size, display_index, &enabled_idx, input_devices, Ghost(enabled));
    push_arg(&mut args, "bwrap");
    push_arg(&mut args, "--die-with-parent");
    push_arg(&mut args, "--dev-bind");
    push_arg(&mut args, "/");
    push_arg(&mut args, "/");
    push_arg(&mut args, "--tmpfs");
    push_arg(&mut args, "/tmp");
    let ghost a1 = string_views(args@);
    proof {
        assert(a1 =~= gamescope_flags(*h, *cfg, window_size, display_index as nat, enabled) + bwrap_head());
    }
    append_args(&mut args, build_device_masks(input_devices, &enabled_idx, Ghost(enabled)));
    append_args(&mut args, build_profile_binds(h, cfg, paths.steam.as_str(), prof.as_str(), pfx.as_str()));
    append_args(&mut args, build_null_binds(&h.game_null_paths, &facts.null_path_kinds, gamedir.as_str(), party));
    let ghost a2 = string_views(args@);
    if h.use_goldberg {
        let sdk32 = match &facts.sdk32_link {
            Ok(l) => l,
            Err(e) => {
                let mut msg = String::from_str("Failed to read sdk32 link: ");
                msg.append(e.as_str());
                return Err(msg);
            },
        };
        let sdk64 = match &facts.sdk64_link {
            Ok(l) => l,
            Err(e) => {
                let mut msg = String::from_str("Failed to read sdk64 link: ");
                msg.append(e.as_str());
                return Err(msg);
            },
        };
        append_args(&mut args, build_goldberg_binds(h.win, paths.res.as_str(), pfx.as_str(), sdk32.as_str(), sdk64.as_str()));
    }
    let ghost a3 = string_views(args@);
    append_args(&mut args, build_runtime_args(h.win, h.runtime.as_str(), paths, facts));
    push_string(&mut args, exec_path);
    append_args(
        &mut args,
        build_game_args(
            h.args.as_str(),
            profname,
            window_size,
            instance_count,
            current_display_idx,
            full_count_idx,
            gamedir,
            &h.path_handler,
            h.win,
        ),
    );
    let plan = CommandPlan { program: String::from_str(gamescope), cwd, envs, args };
    proof {
        let v = launch_plan(*h, *cfg, *paths, gamescope@, input_devices@, instance_devices@, profname@, display_index as nat,
            instance_count as nat, current_display_idx as nat, full_count_idx as nat, window_size, gamedir@, *facts);
        assert(v is Ok);
        assert(plan_view(plan).envs =~= v->Ok_0.envs);
        assert(plan_view(plan).args =~= v->Ok_0.args);
    }
    Ok(plan)
}

/// What one instance of a display brings to its launch command: the hashes
/// of its devices, its profile, the directory it runs from, and what the
/// file system says below that directory.
pub struct InstanceLaunch {
    pub devices: Vec<u64>,
    pub profname: String,
    pub gamedir: String,
    pub facts: LaunchFacts,
}

/// The setting `key=name`, when there is a name.
pub open spec fn optional_env(key: Seq<char>, name: Option<String>) -> Seq<(Seq<char>, Seq<char>)> {
    match name {
        Some(n) => seq![(key, n@)],
        None => Seq::empty(),
    }
}

/// The plan with the nested compositor's display names added to its
/// environment, when the display has a compositor.
pub open spec fn with_display_envs(v: PlanView, wayland: Option<String>, x11: Option<String>) -> PlanView {
    PlanView { envs: v.envs + optional_env("WAYLAND_DISPLAY"@, wayland) + optional_env("DISPLAY"@, x11), ..v }
}

/// The plan of instance `i` of a display whose instances are numbered from
/// `first` across the session.
pub open spec fn display_instance_plan(
    h: LaunchHandler,
    cfg: LaunchConfig,
    paths: LaunchPaths,
    gamescope: Seq<char>,
    inputs: Seq<RunningInputDevice>,
    insts: Seq<InstanceLaunch>,
    display_index: nat,
    layout: Seq<WindowPostion>,
    first: nat,
    i: int,
) -> Result<PlanView, Seq<char>> {
    launch_plan(
        h,
        cfg,
        paths,
        gamescope,
        inputs,
        insts[i].devices@,
        insts[i].profname@,
        display_index,
        insts.len(),
        i as nat,
        first + i as nat,
        layout[i],
        insts[i].gamedir@,
        insts[i].facts,
    )
}

/// Whether `p` is the plan `r` made, with the compositor's display names.
pub open spec fn plan_made_from(p: CommandPlan, r: Result<PlanView, Seq<char>>, wayland: Option<String>, x11: Option<String>) -> bool {
    r is Ok && plan_view(p) == with_display_envs(r->Ok_0, wayland, x11)
}

/// The launch commands of one display's instances, in order, the `i`th at
/// the `i`th window of `layout`; instances are numbered from
/// `first_count_idx` across the session. The first instance whose command
/// cannot be made gives the error.
pub fn display_launch_commands(
    h: &LaunchHandler,
    cfg: &LaunchConfig,
    paths: &LaunchPaths,
    gamescope: &str,
    input_devices: &Vec<RunningInputDevice>,
    instances: &Vec<InstanceLaunch>,
    display_index: usize,
    layout: &Vec<WindowPostion>,
    first_count_idx: usize,
    wayland: &Option<String>,
    x11: &Option<String>,
) -> (res: Result<Vec<CommandPlan>, String>)
    requires
        instances@.len() <= layout@.len(),
        first_count_idx + instances@.len() < usize::MAX,
        forall|i: int| 0 <= i < instances@.len() ==> (#[trigger] instances@[i]).facts.null_path_kinds@.len()
            == h.game_null_paths@.len(),
    ensures
        match res {
            Ok(plans) => plans@.len() == instances@.len() && forall|i: int| 0 <= i < instances@.len() ==> plan_made_from(
                #[trigger] plans@[i],
                display_instance_plan(*h, *cfg, *paths, gamescope@, input_devices@, instances@, display_index as nat, layout@,
                    first_count_idx as nat, i),
                *wayland,
                *x11,
            ),
            Err(e) => exists|k: int| 0 <= k < instances@.len() && (forall|i: int| 0 <= i < k ==> (#[trigger] display_instance_plan(
                *h, *cfg, *paths, gamescope@, input_devices@, instances@, display_index as nat, layout@,
                first_count_idx as nat, i)) is Ok) && display_instance_plan(*h, *cfg, *paths, gamescope@, input_devices@,
                instances@, display_index as nat, layout@, first_count_idx as nat, k) == Err::<PlanView, Seq<char>>(e@),
        },
{
    let mut plans: Vec<CommandPlan> = Vec::new();
    let mut i: usize = 0;
    while i < instances.len()
        invariant
            i <= instances@.len(),
            instances@.len() <= layout@.len(),
            first_count_idx + instances@.len() < usize::MAX,
            forall|j: int| 0 <= j < instances@.len() ==> (#[trigger] instances@[j]).facts.null_path_kinds@.len()
                == h.game_null_paths@.len(),
            plans@.len() == i,
            forall|j: int| 0 <= j < i ==> plan_made_from(
                #[trigger] plans@[j],
                display_instance_plan(*h, *cfg, *paths, gamescope@, input_devices@, instances@, display_index as nat, layout@,
                    first_count_idx as nat, j),
                *wayland,
                *x11,
            ),
        decreases instances.len() - i,
    {
        let inst = &instances[i];
        let r = generate_launch_command(
            h,
            cfg,
            paths,
            gamescope,
            input_devices,
            &inst.devices,
            &inst.profname,
            display_index,
            instances.len(),
            i,
            first_count_idx + i,
            layout[i],
            &inst.gamedir,
            &inst.facts,
        );
        let ghost planned = display_instance_plan(*h, *cfg, *paths, gamescope@, input_devices@, instances@,
            display_index as nat, layout@, first_count_idx as nat, i as int);
        proof {
            assert(planned == launch_plan(*h, *cfg, *paths, gamescope@, input_devices@, inst.devices@, inst.profname@,
                display_index as nat, instances.len() as nat, i as nat, (first_count_idx + i) as nat, layout@[i as int],
                inst.gamedir@, inst.facts));
        }
        match r {
            Err(e) => {
                proof {
                    assert forall|j: int| 0 <= j < i implies (#[trigger] display_instance_plan(*h, *cfg, *paths, gamescope@,
                        input_devices@, instances@, display_index as nat, layout@, first_count_idx as nat, j)) is Ok by {
                        assert(plan_made_from(plans@[j], display_instance_plan(*h, *cfg, *paths, gamescope@, input_devices@,
                            instances@, display_index as nat, layout@, first_count_idx as nat, j), *wayland, *x11));
                    }
                }
                return Err(e);
            },
            Ok(p) => {
                let mut p = p;
                let ghost e0 = pair_views(p.envs@);
                let ghost w = optional_env("WAYLAND_DISPLAY"@, *wayland);
                let ghost x = optional_env("DISPLAY"@, *x11);
                match wayland {
                    Some(name) => push_env(&mut p.envs, "WAYLAND_DISPLAY", name.as_str()),
                    None => {},
                }
                proof {
                    assert(pair_views(p.envs@) =~= e0 + w);
                }
                match x11 {
                    Some(name) => push_env(&mut p.envs, "DISPLAY", name.as_str()),
                    None => {},
                }
                proof {
                    assert(pair_views(p.envs@) =~= e0 + w + x);
                    assert(plan_view(p) == with_display_envs(planned->Ok_0, *wayland, *x11));
                }
                let ghost before = plans@;
                plans.push(p);
                proof {
                    assert forall|j: int| 0 <= j < i + 1 implies plan_made_from(
                        #[trigger] plans@[j],
                        display_instance_plan(*h, *cfg, *paths, gamescope@, input_devices@, instances@, display_index as nat,
                            layout@, first_count_idx as nat, j),
                        *wayland,
                        *x11,
                    ) by {
                        if j < i {
                            assert(plans@[j] == before[j]);
                        }
                    }
                }
            },
        }
        i += 1;
    }
    Ok(plans)
}

/// One display of a launch: the monitor it is on, its windows, its
/// instances, and the display names of its nested compositor, if it has one.
pub struct DisplayLaunch {
    pub display_index: usize,
    pub layout: Vec<WindowPostion>,
    pub instances: Vec<InstanceLaunch>,
    pub wayland: Option<String>,
    pub x11: Option<String>,
}

/// How many instances the first `d` displays have: the number the first
/// instance of display `d` gets across the session.
pub open spec fn instances_before(ds: Seq<DisplayLaunch>, d: int) -> nat
    decreases d,
{
    if d <= 0 {
        0
    } else {
        instances_before(ds, d - 1) + ds[d - 1].instances@.len()
    }
}

/// The plan of instance `i` of display `d` of a session.
pub open spec fn session_instance_plan(
    h: LaunchHandler,
    cfg: LaunchConfig,
    paths: LaunchPaths,
    gamescope: Seq<char>,
    inputs: Seq<RunningInputDevice>,
    ds: Seq<DisplayLaunch>,
    d: int,
    i: int,
) -> Result<PlanView, Seq<char>> {
    display_instance_plan(
        h,
        cfg,
        paths,
        gamescope,
        inputs,
        ds[d].instances@,
        ds[d].display_index as nat,
        ds[d].layout@,
        instances_before(ds, d),
        i,
    )
}

proof fn lemma_instances_before_monotone(ds: Seq<DisplayLaunch>, a: int, b: int)
    requires
        0 <= a <= b,
    ensures
        instances_before(ds, a) <= instances_before(ds, b),
    decreases b - a,
{
    if a < b {
        lemma_instances_before_monotone(ds, a, b - 1);
    }
}

/// The launch commands of every display's instances, display by display.
/// Instances are numbered across the session: instance `i` of display `d`
/// comes after all instances of the displays before it. The first instance
/// whose command cannot be made gives the error.
pub fn session_launch_commands(
    h: &LaunchHandler,
    cfg: &LaunchConfig,
    paths: &LaunchPaths,
    gamescope: &str,
    input_devices: &Vec<RunningInputDevice>,
    displays: &Vec<DisplayLaunch>,
) -> (res: Result<Vec<Vec<CommandPlan>>, String>)
    requires
        instances_before(displays@, displays@.len() as int) < usize::MAX,
        forall|d: int| 0 <= d < displays@.len() ==> (#[trigger] displays@[d]).instances@.len() <= displays@[d].layout@.len(),
        forall|d: int, i: int| 0 <= d < displays@.len() && 0 <= i < displays@[d].instances@.len()
            ==> (#[trigger] displays@[d].instances@[i]).facts.null_path_kinds@.len() == h.game_null_paths@.len(),
    ensures
        match res {
            Ok(plans) => plans@.len() == displays@.len() && forall|d: int| 0 <= d < displays@.len() ==> {
                &&& (#[trigger] plans@[d])@.len() == displays@[d].instances@.len()
                &&& forall|i: int| 0 <= i < displays@[d].instances@.len() ==> plan_made_from(
                    #[trigger] plans@[d]@[i],
                    session_instance_plan(*h, *cfg, *paths, gamescope@, input_devices@, displays@, d, i),
                    displays@[d].wayland,
                    displays@[d].x11,
                )
            },
            Err(e) => exists|d: int, k: int| {
                &&& 0 <= d < displays@.len()
                &&& 0 <= k < displays@[d].instances@.len()
                &&& forall|d1: int, i: int| 0 <= d1 < d && 0 <= i < displays@[d1].instances@.len()
                    ==> (#[trigger] session_instance_plan(*h, *cfg, *paths, gamescope@, input_devices@, displays@, d1, i)) is Ok
                &&& forall|i: int| 0 <= i < k ==> (#[trigger] session_instance_plan(*h, *cfg, *paths, gamescope@,
                    input_devices@, displays@, d, i)) is Ok
                &&& session_instance_plan(*h, *cfg, *paths, gamescope@, input_devices@, displays@, d, k) == Err::<
                    PlanView,
                    Seq<char>,
                >(e@)
            },
        },
{
    let mut plans: Vec<Vec<CommandPlan>> = Vec::new();
    let mut first: usize = 0;
    let mut d: usize = 0;
    while d < displays.len()
        invariant
            d <= displays@.len(),
            first == instances_before(displays@, d as int),
            instances_before(displays@, displays@.len() as int) < usize::MAX,
            forall|e: int| 0 <= e < displays@.len() ==> (#[trigger] displays@[e]).instances@.len() <= displays@[e].layout@.len(),
            forall|e: int, i: int| 0 <= e < displays@.len() && 0 <= i < displays@[e].instances@.len()
                ==> (#[trigger] displays@[e].instances@[i]).facts.null_path_kinds@.len() == h.game_null_paths@.len(),
            plans@.len() == d,
            forall|e: int| 0 <= e < d ==> {
                &&& (#[trigger] plans@[e])@.len() == displays@[e].instances@.len()
                &&& forall|i: int| 0 <= i < displays@[e].instances@.len() ==> plan_made_from(
                    #[trigger] plans@[e]@[i],
                    session_instance_plan(*h, *cfg, *paths, gamescope@, input_devices@, displays@, e, i),
                    displays@[e].wayland,
                    displays@[e].x11,
                )
            },
        decreases displays.len() - d,
    {
        let disp = &displays[d];
        proof {
            lemma_instances_before_monotone(displays@, d + 1, displays@.len() as int);
            assert forall|i: int| 0 <= i < disp.instances@.len() implies (#[trigger] disp.instances@[i]).facts.null_path_kinds@.len()
                == h.game_null_paths@.len() by {
                assert(displays@[d as int].instances@[i] == disp.instances@[i]);
            }
        }
        let r = display_launch_commands(
            h,
            cfg,
            paths,
            gamescope,
            input_devices,
            &disp.instances,
            disp.display_index,
            &disp.layout,
            first,
            &disp.wayland,
            &disp.x11,
        );
        match r {
            Err(e) => {
                proof {
                    let k = choose|k: int| 0 <= k < disp.instances@.len() && (forall|i: int| 0 <= i < k ==> (#[trigger] display_instance_plan(
                        *h, *cfg, *paths, gamescope@, input_devices@, disp.instances@, disp.display_index as nat, disp.layout@,
                        first as nat, i)) is Ok) && display_instance_plan(*h, *cfg, *paths, gamescope@, input_devices@,
                        disp.instances@, disp.display_index as nat, disp.layout@, first as nat, k) == Err::<PlanView, Seq<char>>(e@);
                    assert(session_instance_plan(*h, *cfg, *paths, gamescope@, input_devices@, displays@, d as int, k)
                        == Err::<PlanView, Seq<char>>(e@));
                    assert forall|i: int| 0 <= i < k implies (#[trigger] session_instance_plan(*h, *cfg, *paths, gamescope@,
                        input_devices@, displays@, d as int, i)) is Ok by {
                        assert(display_instance_plan(*h, *cfg, *paths, gamescope@, input_devices@, disp.instances@,
                            disp.display_index as nat, disp.layout@, first as nat, i) is Ok);
                    }
                    assert forall|d1: int, i: int| 0 <= d1 < d && 0 <= i < displays@[d1].instances@.len()
                        implies (#[trigger] session_instance_plan(*h, *cfg, *paths, gamescope@, input_devices@, displays@, d1, i)) is Ok by {
                        assert(plan_made_from(plans@[d1]@[i], session_instance_plan(*h, *cfg, *paths, gamescope@, input_devices@,
                            displays@, d1, i), displays@[d1].wayland, displays@[d1].x11));
                    }
                }
                return Err(e);
            },
            Ok(ps) => {
                proof {
                    assert forall|i: int| 0 <= i < displays@[d as int].instances@.len() implies plan_made_from(
                        #[trigger] ps@[i],
                        session_instance_plan(*h, *cfg, *paths, gamescope@, input_devices@, displays@, d as int, i),
                        displays@[d as int].wayland,
                        displays@[d as int].x11,
                    ) by {
                        assert(plan_made_from(ps@[i], display_instance_plan(*h, *cfg, *paths, gamescope@, input_devices@,
                            disp.instances@, disp.display_index as nat, disp.layout@, first as nat, i), disp.wayland, disp.x11));
                    }
                }
                let n = ps.len();
                let ghost before = plans@;
                plans.push(ps);
                proof {
                    assert forall|e: int| 0 <= e < d + 1 implies {
                        &&& (#[trigger] plans@[e])@.len() == displays@[e].instances@.len()
                        &&& forall|i: int| 0 <= i < displays@[e].instances@.len() ==> plan_made_from(
                            #[trigger] plans@[e]@[i],
                            session_instance_plan(*h, *cfg, *paths, gamescope@, input_devices@, displays@, e, i),
                            displays@[e].wayland,
                            displays@[e].x11,
                        )
                    } by {
                        if e < d {
                            assert(plans@[e] == before[e]);
                        }
                    }
                }
                first = first + n;
            },
        }
        d += 1;
    }
    Ok(plans)
}

/// What the file system says about the tools and runtime a launch needs.
pub struct RuntimeFacts {
    /// Whether the bundled keyboard-and-mouse gamescope exists.
    pub gamescope_kbm_exists: bool,
    /// Whether `gamescope` is found in `PATH`.
    pub gamescope_in_path: bool,
    /// Whether the scout runtime's `run.sh` exists.
    pub scout_exists: bool,
    pub soldier_exists: bool,
    pub sniper_exists: bool,
    /// Whether the sniper runtime installed under its older directory name
    /// exists.
    pub sniper_arm_exists: bool,
    pub steamrt4_exists: bool,
}

/// Whether the handler's runtime is missing.
pub open spec fn runtime_missing(runtime: Seq<char>, f: RuntimeFacts) -> bool {
    ||| (runtime == "scout"@ && !f.scout_exists)
    ||| (runtime == "soldier"@ && !f.soldier_exists)
    ||| (runtime == "sniper"@ && !f.sniper_exists && !f.sniper_arm_exists)
    ||| (runtime == "steamrt4"@ && !f.steamrt4_exists)
}

pub open spec fn prerequisites(kbm_support: bool, runtime: Seq<char>, f: RuntimeFacts) -> Result<(), Seq<char>> {
    if kbm_support && !f.gamescope_kbm_exists {
        Err("gamescope-kbm is missing. Please reinstall partydeck or disable KBM support."@)
    } else if !kbm_support && !f.gamescope_in_path {
        Err("gamescope not found in PATH. Please install gamescope through your distro's package manager."@)
    } else if runtime_missing(runtime, f) {
        Err(
            "Steam Runtime "@ + runtime
                + " not found! Runtime must be installed on the same drive that the Steam client is installed on."@,
        )
    } else {
        Ok(())
    }
}

/// With gamescope present, a launch is refused for its runtime exactly when
/// that runtime's own install is missing (sniper under either of its
/// directory names), whatever the facts about the other runtimes; a launch
/// with no runtime or another runtime name is never refused for it. A
/// refusal names the runtime.
pub proof fn lemma_runtime_check(kbm_support: bool, runtime: Seq<char>, f: RuntimeFacts)
    requires
        if kbm_support {
            f.gamescope_kbm_exists
        } else {
            f.gamescope_in_path
        },
    ensures
        runtime == "scout"@ ==> (prerequisites(kbm_support, runtime, f) is Ok <==> f.scout_exists),
        runtime == "soldier"@ ==> (prerequisites(kbm_support, runtime, f) is Ok <==> f.soldier_exists),
        runtime == "sniper"@ ==> (prerequisites(kbm_support, runtime, f) is Ok <==> (f.sniper_exists
            || f.sniper_arm_exists)),
        runtime == "steamrt4"@ ==> (prerequisites(kbm_support, runtime, f) is Ok <==> f.steamrt4_exists),
        runtime != "scout"@ && runtime != "soldier"@ && runtime != "sniper"@ && runtime != "steamrt4"@
            ==> prerequisites(kbm_support, runtime, f) is Ok,
        prerequisites(kbm_support, runtime, f) matches Err(e) ==> e == "Steam Runtime "@ + runtime
            + " not found! Runtime must be installed on the same drive that the Steam client is installed on."@,
{
    reveal_strlit("scout");
    reveal_strlit("soldier");
    reveal_strlit("sniper");
    reveal_strlit("steamrt4");
}

/// Whatever the runtime, a launch is refused first for a missing gamescope:
/// the bundled one when keyboard and mouse support is on, the system's
/// otherwise.
pub proof fn lemma_gamescope_check(kbm_support: bool, runtime: Seq<char>, f: RuntimeFacts)
    ensures
        kbm_support && !f.gamescope_kbm_exists ==> prerequisites(kbm_support, runtime, f)
            == Err::<(), Seq<char>>("gamescope-kbm is missing. Please reinstall partydeck or disable KBM support."@),
        !kbm_support && !f.gamescope_in_path ==> prerequisites(kbm_support, runtime, f) == Err::<(), Seq<char>>(
            "gamescope not found in PATH. Please install gamescope through your distro's package manager."@,
        ),
{
}

/// Checks that gamescope and the handler's runtime are installed before
/// anything is started.
pub fn check_launch_prerequisites(kbm_support: bool, runtime: &str, f: &RuntimeFacts) -> (res: Result<(), String>)
    ensures
        match (res, prerequisites(kbm_support, runtime@, *f)) {
            (Ok(()), Ok(())) => true,
            (Err(e), Err(v)) => e@ == v,
            _ => false,
        },
{
    if kbm_support && !f.gamescope_kbm_exists {
        return Err(String::from_str("gamescope-kbm is missing. Please reinstall partydeck or disable KBM support."));
    }
    if !kbm_support && !f.gamescope_in_path {
        return Err(
            String::from_str("gamescope not found in PATH. Please install gamescope through your distro's package manager."),
        );
    }
    if (str_eq(runtime, "scout") && !f.scout_exists) || (str_eq(runtime, "soldier") && !f.soldier_exists) || (str_eq(
        runtime,
        "sniper",
    ) && !f.sniper_exists && !f.sniper_arm_exists) || (str_eq(runtime, "steamrt4") && !f.steamrt4_exists) {
        let mut msg = String::from_str("Steam Runtime ");
        msg.append(runtime);
        msg.append(" not found! Runtime must be installed on the same drive that the Steam client is installed on.");
        return Err(msg);
    }
    Ok(())
}

/// The gamescope binary a launch runs: the bundled one with keyboard and
/// mouse support, or the system's.
pub fn gamescope_binary(kbm_support: bool, gamescope_kbm: &str) -> (res: String)
    ensures
        res@ == if kbm_support {
            gamescope_kbm@
        } else {
            "gamescope"@
        },
{
    if kbm_support {
        String::from_str(gamescope_kbm)
    } else {
        String::from_str("gamescope")
    }
}

/// What polling a game process found.
#[derive(Clone, Copy, PartialEq, Eq, Structural, Debug)]
pub enum GamePoll {
    /// The instance has no process.
    NoProcess,
    Exited,
    Running,
}

/// The processes of one display, as polled.
pub struct DisplayPoll {
    /// Whether the display's nested compositor runs; `None` when it has none.
    pub compositor_running: Option<bool>,
    pub games: Vec<GamePoll>,
}

/// What to do about the processes once they were polled.
pub struct KillPlan {
    /// Whether some game still runs under a live compositor.
    pub has_alive_games: bool,
    /// Per display, the positions of the games to kill.
    pub kill_games: Vec<Vec<usize>>,
    /// Per display, whether to kill its compositor.
    pub kill_compositor: Vec<bool>,
}

pub open spec fn compositor_alive(d: DisplayPoll) -> bool {
    match d.compositor_running {
        Some(r) => r,
        None => true,
    }
}

/// The games of a display that are to be killed: running ones whose
/// compositor died.
pub open spec fn games_to_kill(d: DisplayPoll) -> Seq<usize> {
    if compositor_alive(d) {
        Seq::empty()
    } else {
        Seq::new(d.games@.len(), |k: int| k as usize).filter(|k: usize| d.games@[k as int] == GamePoll::Running)
    }
}

pub open spec fn display_has_alive_games(d: DisplayPoll) -> bool {
    compositor_alive(d) && exists|k: int| 0 <= k < d.games@.len() && d.games@[k] == GamePoll::Running
}

/// A compositor is killed once its display has no game left.
pub open spec fn kill_compositor_of(d: DisplayPoll) -> bool {
    !display_has_alive_games(d) && d.compositor_running == Some(true)
}

/// Decides which processes to kill: games whose compositor died, and
/// compositors whose games all ended. Reports whether any game still runs.
pub fn check_for_and_kill_games(displays: &Vec<DisplayPoll>) -> (plan: KillPlan)
    ensures
        plan.has_alive_games == exists|d: int| 0 <= d < displays@.len() && display_has_alive_games(#[trigger] displays@[d]),
        plan.kill_games@.len() == displays@.len(),
        plan.kill_compositor@.len() == displays@.len(),
        forall|d: int| 0 <= d < displays@.len() ==> (#[trigger] plan.kill_games@[d])@ == games_to_kill(displays@[d]),
        forall|d: int| 0 <= d < displays@.len() ==> #[trigger] plan.kill_compositor@[d] == kill_compositor_of(displays@[d]),
{
    let mut has_alive_games = false;
    let mut kill_games: Vec<Vec<usize>> = Vec::new();
    let mut kill_compositor: Vec<bool> = Vec::new();
    let mut d: usize = 0;
    while d < displays.len()
        invariant
            d <= displays@.len(),
            kill_games@.len() == d,
            kill_compositor@.len() == d,
            has_alive_games == exists|e: int| 0 <= e < d && display_has_alive_games(#[trigger] displays@[e]),
            forall|e: int| 0 <= e < d ==> (#[trigger] kill_games@[e])@ == games_to_kill(displays@[e]),
            forall|e: int| 0 <= e < d ==> #[trigger] kill_compositor@[e] == kill_compositor_of(displays@[e]),
        decreases displays.len() - d,
    {
        let disp = &displays[d];
        let comp_alive = match disp.compositor_running {
            Some(r) => r,
            None => true,
        };
        let mut display_alive = false;
        let mut kills: Vec<usize> = Vec::new();
        let ghost idx = Seq::new(disp.games@.len(), |k: int| k as usize);
        let ghost running = |k: usize| disp.games@[k as int] == GamePoll::Running;
        let mut k: usize = 0;
        proof {
            assert(idx.take(0) =~= Seq::<usize>::empty());
        }
        while k < disp.games.len()
            invariant
                k <= disp.games@.len(),
                idx == Seq::new(disp.games@.len(), |k: int| k as usize),
                running == (|k: usize| disp.games@[k as int] == GamePoll::Running),
                comp_alive == compositor_alive(*disp),
                !comp_alive ==> kills@ == idx.take(k as int).filter(running),
                comp_alive ==> kills@.len() == 0,
                display_alive == (comp_alive && exists|m: int| 0 <= m < k && disp.games@[m] == GamePoll::Running),
            decreases disp.games.len() - k,
        {
            proof {
                assert(idx.take(k + 1) =~= idx.take(k as int).push(k as usize));
                idx.take(k as int).lemma_filter_push(k as usize, running);
            }
            if disp.games[k] == GamePoll::Running {
                if !comp_alive {
                    kills.push(k);
                } else {
                    display_alive = true;
                }
            }
            k += 1;
        }
        proof {
            assert(idx.take(k as int) =~= idx);
        }
        let kill_comp = !display_alive && disp.compositor_running == Some(true);
        if display_alive {
            has_alive_games = true;
        }
        let ghost before = kill_games@;
        kill_games.push(kills);
        kill_compositor.push(kill_comp);
        proof {
            assert(kill_games@[d as int]@ == games_to_kill(displays@[d as int]));
            assert forall|e: int| 0 <= e < d + 1 implies (#[trigger] kill_games@[e])@ == games_to_kill(displays@[e]) by {
                if e < d {
                    assert(kill_games@[e] == before[e]);
                }
            }
        }
        d += 1;
    }
    KillPlan { has_alive_games, kill_games, kill_compositor }
}

/// What preparing a profile takes: creating a temporary profile for a name
/// that starts with a dot, and a game-save directory for handlers that keep
/// saves per profile.
pub fn profile_setup(profname: &str, saved_handler: bool) -> (res: (bool, bool))
    ensures
        res.0 == (profname@.len() > 0 && profname@[0] == '.'),
        res.1 == saved_handler,
{
    let temp = profname.unicode_len() > 0 && profname.get_char(0) == '.';
    (temp, saved_handler)
}

/// The lower layer of the game mounts: the handler's overlay directory, when
/// it exists, on top of the game's root.
pub open spec fn lower_dir(root: Seq<char>, handler_dir: Seq<char>, overlay_exists: bool) -> Seq<char> {
    if overlay_exists {
        joined(handler_dir, "overlay"@) + single(':') + root
    } else {
        root
    }
}

/// One instance's game mount: the directories to create and the
/// `fuse-overlayfs` arguments.
pub struct OverlayMount {
    pub mount_dir: String,
    pub work_dir: String,
    pub args: Vec<String>,
}

pub open spec fn mount_dir(party: Seq<char>, i: nat) -> Seq<char> {
    joined(joined(party, "tmp"@), "game-"@ + decimal(i))
}

pub open spec fn work_dir(party: Seq<char>, i: nat) -> Seq<char> {
    joined(joined(party, "tmp"@), "work-"@ + decimal(i))
}

pub open spec fn mount_args(lower: Seq<char>, upper: Seq<char>, work: Seq<char>, mnt: Seq<char>) -> Seq<Seq<char>> {
    seq!["-o"@, "lowerdir="@ + lower, "-o"@, "upperdir="@ + upper, "-o"@, "workdir="@ + work, mnt]
}

/// The game-save layer of a profile.
pub open spec fn upper_dir(party: Seq<char>, profname: Seq<char>, gamename: Seq<char>) -> Seq<char> {
    joined(joined(profile_dir(party, profname), "gamesaves"@), gamename)
}

/// The overlay mounts that give each instance its own writable copy of the
/// game, its saves kept in the instance's profile.
pub fn fuse_overlayfs_mount_gamedirs(
    root: &str,
    handler_dir: &str,
    overlay_exists: bool,
    gamename: &str,
    party: &str,
    profnames: &Vec<String>,
) -> (mounts: Vec<OverlayMount>)
    requires
        profnames@.len() <= u64::MAX,
    ensures
        mounts@.len() == profnames@.len(),
        forall|i: int| 0 <= i < mounts@.len() ==> {
            let m = #[trigger] mounts@[i];
            &&& m.mount_dir@ == mount_dir(party@, i as nat)
            &&& m.work_dir@ == work_dir(party@, i as nat)
            &&& string_views(m.args@) == mount_args(
                lower_dir(root@, handler_dir@, overlay_exists),
                upper_dir(party@, profnames@[i]@, gamename@),
                work_dir(party@, i as nat),
                mount_dir(party@, i as nat),
            )
        },
{
    let lower = if overlay_exists {
        let mut l = join_path(handler_dir, "overlay");
        proof {
            reveal_strlit(":");
            assert(":"@ =~= single(':'));
        }
        l.append(":");
        l.append(root);
        l
    } else {
        String::from_str(root)
    };
    let tmp = join_path(party, "tmp");
    let profiles = join_path(party, "profiles");
    let mut mounts: Vec<OverlayMount> = Vec::new();
    let mut i: usize = 0;
    while i < profnames.len()
        invariant
            i <= profnames@.len(),
            profnames@.len() <= u64::MAX,
            lower@ == lower_dir(root@, handler_dir@, overlay_exists),
            tmp@ == joined(party@, "tmp"@),
            profiles@ == joined(party@, "profiles"@),
            mounts@.len() == i,
            forall|k: int| 0 <= k < i ==> {
                let m = #[trigger] mounts@[k];
                &&& m.mount_dir@ == mount_dir(party@, k as nat)
                &&& m.work_dir@ == work_dir(party@, k as nat)
                &&& string_views(m.args@) == mount_args(
                    lower_dir(root@, handler_dir@, overlay_exists),
                    upper_dir(party@, profnames@[k]@, gamename@),
                    work_dir(party@, k as nat),
                    mount_dir(party@, k as nat),
                )
            },
        decreases profnames.len() - i,
    {
        let mut game = String::from_str("game-");
        push_decimal(&mut game, i as u64);
        let mnt = join_path(tmp.as_str(), game.as_str());
        let mut work_name = String::from_str("work-");
        push_decimal(&mut work_name, i as u64);
        let work = join_path(tmp.as_str(), work_name.as_str());
        let prof = join_path(profiles.as_str(), profnames[i].as_str());
        let saves = join_path(prof.as_str(), "gamesaves");
        let upper = join_path(saves.as_str(), gamename);
        let mut args: Vec<String> = Vec::new();
        push_arg(&mut args, "-o");
        let mut lo = String::from_str("lowerdir=");
        lo.append(lower.as_str());
        push_string(&mut args, lo);
        push_arg(&mut args, "-o");
        let mut up = String::from_str("upperdir=");
        up.append(upper.as_str());
        push_string(&mut args, up);
        push_arg(&mut args, "-o");
        let mut wo = String::from_str("workdir=");
        wo.append(work.as_str());
        push_string(&mut args, wo);
        push_arg(&mut args, mnt.as_str());
        proof {
            assert(string_views(args@) =~= mount_args(
                lower_dir(root@, handler_dir@, overlay_exists),
                upper_dir(party@, profnames@[i as int]@, gamename@),
                work_dir(party@, i as nat),
                mount_dir(party@, i as nat),
            ));
        }
        mounts.push(OverlayMount { mount_dir: mnt, work_dir: work, args });
        i += 1;
    }
    mounts
}

/// Whether some pid of `a` is in `b`.
pub open spec fn shares_pid(a: Seq<u32>, b: Seq<u32>) -> bool {
    exists|i: int| 0 <= i < a.len() && b.contains(#[trigger] a[i])
}

/// How many of `pids` belong to `display_pids`.
pub open spec fn pids_on(pids: Seq<u32>, display_pids: Seq<u32>) -> nat {
    pids.filter(|p: u32| display_pids.contains(p)).len()
}

fn contains_pid(v: &Vec<u32>, p: u32) -> (res: bool)
    ensures
        res == v@.contains(p),
{
    let mut k: usize = 0;
    while k < v.len()
        invariant
            k <= v@.len(),
            forall|m: int| 0 <= m < k ==> v@[m] != p,
        decreases v.len() - k,
    {
        if v[k] == p {
            return true;
        }
        k += 1;
    }
    false
}

/// The display whose game pids include one of the windows the compositor
/// asks about, and how many of those windows are on it.
pub fn find_layout_display(pids: &Vec<u32>, displays: &Vec<Vec<u32>>) -> (res: Option<(usize, u32)>)
    requires
        pids@.len() <= u32::MAX,
    ensures
        match res {
            Some((d, count)) => {
                &&& d < displays@.len()
                &&& first_index(displays@, |dp: Vec<u32>| shares_pid(dp@, pids@)) == Some(d as int)
                &&& count == pids_on(pids@, displays@[d as int]@)
            },
            None => first_index(displays@, |dp: Vec<u32>| shares_pid(dp@, pids@)) is None,
        },
{
    let ghost p = |dp: Vec<u32>| shares_pid(dp@, pids@);
    let mut d: usize = 0;
    while d < displays.len()
        invariant
            d <= displays@.len(),
            pids@.len() <= u32::MAX,
            p == (|dp: Vec<u32>| shares_pid(dp@, pids@)),
            forall|m: int| 0 <= m < d ==> !p(#[trigger] displays@[m]),
        decreases displays.len() - d,
    {
        let dp = &displays[d];
        let mut shared = false;
        let mut i: usize = 0;
        while i < dp.len()
            invariant
                i <= dp@.len(),
                shared == exists|k: int| 0 <= k < i && pids@.contains(#[trigger] dp@[k]),
            decreases dp.len() - i,
        {
            if contains_pid(pids, dp[i]) {
                shared = true;
            }
            i += 1;
        }
        proof {
            assert(shared == shares_pid(dp@, pids@)) by {
                if shared {
                    let k = choose|k: int| 0 <= k < dp@.len() && pids@.contains(#[trigger] dp@[k]);
                    let j = choose|j: int| 0 <= j < pids@.len() && pids@[j] == dp@[k];
                    assert(dp@.contains(pids@[j]));
                }
                if shares_pid(dp@, pids@) {
                    let j = choose|j: int| 0 <= j < pids@.len() && dp@.contains(#[trigger] pids@[j]);
                    let k = choose|k: int| 0 <= k < dp@.len() && dp@[k] == pids@[j];
                    assert(pids@.contains(dp@[k]));
                }
            }
        }
        if shared {
            proof {
                lemma_first_index(displays@, p, d as int);
            }
            let ghost f = |q: u32| dp@.contains(q);
            let mut count: u32 = 0;
            let mut j: usize = 0;
            proof {
                assert(pids@.take(0) =~= Seq::<u32>::empty());
            }
            while j < pids.len()
                invariant
                    j <= pids@.len(),
                    pids@.len() <= u32::MAX,
                    f == (|q: u32| dp@.contains(q)),
                    count == pids@.take(j as int).filter(f).len(),
                    count <= j,
                decreases pids.len() - j,
            {
                proof {
                    assert(pids@.take(j + 1) =~= pids@.take(j as int).push(pids@[j as int]));
                    pids@.take(j as int).lemma_filter_push(pids@[j as int], f);
                }
                if contains_pid(dp, pids[j]) {
                    count = count + 1;
                }
                j += 1;
            }
            proof {
                assert(pids@.take(j as int) =~= pids@);
            }
            return Some((d, count));
        }
        d += 1;
    }
    proof {
        lemma_first_index(displays@, p, d as int);
    }
    None
}

/// The position the last of the first `m` display pids equal to `pid` has
/// in the layout, or an empty rectangle.
pub open spec fn pid_position_upto(pid: u32, display_pids: Seq<u32>, layout: Seq<WindowPostion>, m: int) -> (u32, u32, u32, u32)
    decreases m,
{
    if m <= 0 {
        (0, 0, 0, 0)
    } else if display_pids[m - 1] == pid {
        let w = layout[m - 1];
        (w.x, w.y, w.w, w.h)
    } else {
        pid_position_upto(pid, display_pids, layout, m - 1)
    }
}

/// The window a pid gets: display pids take the layout's positions in order,
/// a later equal pid overriding an earlier one; pids beyond the layout get
/// none.
pub open spec fn pid_position(pid: u32, display_pids: Seq<u32>, layout: Seq<WindowPostion>) -> (u32, u32, u32, u32) {
    let n = if display_pids.len() < layout.len() {
        display_pids.len()
    } else {
        layout.len()
    };
    pid_position_upto(pid, display_pids, layout, n as int)
}

/// The rectangles for the windows the compositor asks about: the display's
/// game pids get the layout's positions in order, other windows an empty
/// rectangle.
pub fn assign_layout(pids: &Vec<u32>, display_pids: &Vec<u32>, layout: &Vec<WindowPostion>) -> (res: Vec<(u32, u32, u32, u32)>)
    ensures
        res@.len() == pids@.len(),
        forall|i: int| 0 <= i < pids@.len() ==> #[trigger] res@[i] == pid_position(pids@[i], display_pids@, layout@),
{
    let n = if display_pids.len() < layout.len() {
        display_pids.len()
    } else {
        layout.len()
    };
    let mut res: Vec<(u32, u32, u32, u32)> = Vec::new();
    let mut i: usize = 0;
    while i < pids.len()
        invariant
            i <= pids@.len(),
            n == if display_pids@.len() < layout@.len() {
                display_pids@.len()
            } else {
                layout@.len()
            },
            res@.len() == i,
            forall|k: int| 0 <= k < i ==> #[trigger] res@[k] == pid_position(pids@[k], display_pids@, layout@),
        decreases pids.len() - i,
    {
        let pid = pids[i];
        let mut m: usize = n;
        let mut found: Option<usize> = None;
        while m > 0 && found.is_none()
            invariant
                m <= n,
                n <= display_pids@.len(),
                n <= layout@.len(),
                found is None ==> pid_position(pid, display_pids@, layout@) == pid_position_upto(pid, display_pids@, layout@, m as int),
                found matches Some(j) ==> j < n && pid_position(pid, display_pids@, layout@) == (layout@[j as int].x,
                    layout@[j as int].y, layout@[j as int].w, layout@[j as int].h),
            decreases m + if found is None { 1int } else { 0int },
        {
            if display_pids[m - 1] == pid {
                found = Some(m - 1);
            } else {
                m -= 1;
            }
        }
        let pos = match found {
            Some(j) => {
                let w = layout[j];
                (w.x, w.y, w.w, w.h)
            },
            None => (0, 0, 0, 0),
        };
        res.push(pos);
        i += 1;
    }
    res
}

} // verus!
