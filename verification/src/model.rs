//! What a mod archive contains, once it has been classified.
//!
//! Every location here is relative to the *game root* — the directory that
//! contains `SB/`. Stellar Blade is UE 4.26 with IoStore enabled, so pak mods
//! arrive as `.pak` / `.utoc` / `.ucas` triplets sharing one base name.

use vstd::prelude::*;

use crate::text::{str_eq, string_views};

verus! {

/// The engine content directory prefix inside the install.
pub const GAME_SUBDIR: &'static str = "SB";

/// Loose pak mods. Load order inside this folder is alphanumeric.
pub const PAKS_MODS: &'static str = "SB/Content/Paks/~mods";

/// UE4SS Blueprint ("logic") mods. These deliberately do *not* live in `~mods`.
pub const PAKS_LOGICMODS: &'static str = "SB/Content/Paks/LogicMods";

/// Parent directory for UE4SS Lua and C++ mods; each mod gets its own subfolder.
pub const UE4SS_MODS: &'static str = "SB/Binaries/Win64/ue4ss/Mods";

/// The UE4SS registration file. Each line is `<ModFolderName> : <0|1>`.
pub const UE4SS_MODS_TXT: &'static str = "SB/Binaries/Win64/ue4ss/Mods/mods.txt";

/// Where the game executable and any injected DLL proxies live.
pub const BINARIES_WIN64: &'static str = "SB/Binaries/Win64";

/// Bink/mp4 movie replacements.
pub const CONTENT_MOVIES: &'static str = "SB/Content/Movies";

/// The startup splash image directory.
pub const CONTENT_SPLASH: &'static str = "SB/Content/Splash";

/// The kinds of mod payload we know how to place.
#[derive(Debug, Clone, Copy, PartialEq, Eq, Structural, Hash)]
pub enum ModType {
    /// UE4SS itself: the DLL proxy plus the `ue4ss` runtime directory.
    Ue4ssFramework,
    /// UE4SS Blueprint mod. Must land in `LogicMods`, never in `~mods`.
    LogicMod,
    /// UE4SS Lua mod — a folder containing `scripts/main.lua`.
    Ue4ssLua,
    /// UE4SS C++ mod — a folder containing `dlls/main.dll`.
    Ue4ssDll,
    /// Movie/cutscene replacement.
    Movie,
    /// ReShade or a similar DLL proxy dropped next to the executable.
    RootBinary,
    /// Plain pak mod (with its IoStore siblings, when present).
    GenericPak,
    /// An archive that already encodes exact game-relative paths under `SB/`
    /// and does not fit any narrower category.
    GameRootOverlay,
    /// Files whose type could not be inferred; the user is asked to choose.
    Unknown,
}

/// Game-root-relative directory a type installs into.
pub open spec fn target_dir_of(t: ModType) -> Seq<char> {
    match t {
        ModType::Ue4ssFramework | ModType::RootBinary => BINARIES_WIN64@,
        ModType::LogicMod => PAKS_LOGICMODS@,
        ModType::Ue4ssLua | ModType::Ue4ssDll => UE4SS_MODS@,
        ModType::Movie => CONTENT_MOVIES@,
        ModType::GenericPak => PAKS_MODS@,
        ModType::GameRootOverlay => GAME_SUBDIR@,
        ModType::Unknown => ""@,
    }
}

/// The stable identifier of a type, as used in the UI and in the database.
pub open spec fn type_id_of(t: ModType) -> Seq<char> {
    match t {
        ModType::Ue4ssFramework => "ue4ssFramework"@,
        ModType::LogicMod => "logicMod"@,
        ModType::Ue4ssLua => "ue4ssLua"@,
        ModType::Ue4ssDll => "ue4ssDll"@,
        ModType::Movie => "movie"@,
        ModType::RootBinary => "rootBinary"@,
        ModType::GenericPak => "genericPak"@,
        ModType::GameRootOverlay => "gameRootOverlay"@,
        ModType::Unknown => "unknown"@,
    }
}

pub open spec fn all_types() -> Seq<ModType> {
    seq![
        ModType::Ue4ssFramework,
        ModType::LogicMod,
        ModType::Ue4ssLua,
        ModType::Ue4ssDll,
        ModType::Movie,
        ModType::RootBinary,
        ModType::GenericPak,
        ModType::GameRootOverlay,
        ModType::Unknown,
    ]
}

pub open spec fn is_load_ordered_type(t: ModType) -> bool {
    t == ModType::GenericPak
}

pub open spec fn needs_registration_type(t: ModType) -> bool {
    t == ModType::Ue4ssLua || t == ModType::Ue4ssDll
}

pub open spec fn is_flat_type(t: ModType) -> bool {
    t == ModType::GenericPak || t == ModType::LogicMod || t == ModType::Movie
}

impl ModType {
    /// Game-root-relative directory this type installs into.
    ///
    /// `Ue4ssLua` and `Ue4ssDll` return the shared parent; the per-mod
    /// subfolder is appended during planning because it depends on the mod name.
    pub fn target_subdir(self) -> (r: &'static str)
        ensures
            r@ == target_dir_of(self),
    {
        match self {
            ModType::Ue4ssFramework | ModType::RootBinary => BINARIES_WIN64,
            ModType::LogicMod => PAKS_LOGICMODS,
            ModType::Ue4ssLua | ModType::Ue4ssDll => UE4SS_MODS,
            ModType::Movie => CONTENT_MOVIES,
            ModType::GenericPak => PAKS_MODS,
            ModType::GameRootOverlay => GAME_SUBDIR,
            ModType::Unknown => "",
        }
    }

    /// Whether this type participates in the alphanumeric pak load order.
    ///
    /// Only `~mods` is ordered this way. Logic mods are resolved by UE4SS
    /// itself, so renaming them to force an order would be wrong.
    pub fn is_load_ordered(self) -> (r: bool)
        ensures
            r == is_load_ordered_type(self),
    {
        matches!(self, ModType::GenericPak)
    }

    /// Whether installing this type requires registering the mod folder in
    /// UE4SS's `mods.txt`.
    pub fn needs_ue4ss_registration(self) -> (r: bool)
        ensures
            r == needs_registration_type(self),
    {
        matches!(self, ModType::Ue4ssLua | ModType::Ue4ssDll)
    }

    /// Types whose destination directory is flat — subfolders in the archive
    /// carry no meaning and are collapsed away.
    pub fn is_flat_target(self) -> (r: bool)
        ensures
            r == is_flat_type(self),
    {
        matches!(self, ModType::GenericPak | ModType::LogicMod | ModType::Movie)
    }

    /// Stable identifier used in the UI and in the database.
    pub fn as_str(self) -> (r: &'static str)
        ensures
            r@ == type_id_of(self),
    {
        match self {
            ModType::Ue4ssFramework => "ue4ssFramework",
            ModType::LogicMod => "logicMod",
            ModType::Ue4ssLua => "ue4ssLua",
            ModType::Ue4ssDll => "ue4ssDll",
            ModType::Movie => "movie",
            ModType::RootBinary => "rootBinary",
            ModType::GenericPak => "genericPak",
            ModType::GameRootOverlay => "gameRootOverlay",
            ModType::Unknown => "unknown",
        }
    }

    /// The type whose identifier is `s`, if any.
    pub fn from_str_id(s: &str) -> (r: Option<ModType>)
        ensures
            match r {
                Some(t) => type_id_of(t) == s@,
                None => forall|t: ModType| type_id_of(t) != s@,
            },
    {
        let all = ModType::all();
        let mut i: usize = 0;
        while i < all.len()
            invariant
                i <= all.len(),
                all@ == all_types(),
                forall|k: int| 0 <= k < i ==> type_id_of(#[trigger] all@[k]) != s@,
            decreases all.len() - i,
        {
            let t = all[i];
            if str_eq(t.as_str(), s) {
                return Some(t);
            }
            i = i + 1;
        }
        assert forall|t: ModType| type_id_of(t) != s@ by {
            assert(all@[t_index(t)] == t);
        }
        None
    }

    /// Every type, in declaration order.
    pub fn all() -> (r: Vec<ModType>)
        ensures
            r@ == all_types(),
    {
        let r = vec![
            ModType::Ue4ssFramework,
            ModType::LogicMod,
            ModType::Ue4ssLua,
            ModType::Ue4ssDll,
            ModType::Movie,
            ModType::RootBinary,
            ModType::GenericPak,
            ModType::GameRootOverlay,
            ModType::Unknown,
        ];
        assert(r@ =~= all_types());
        r
    }

    /// Every type the user may pick from when correcting a detection.
    pub fn all_selectable() -> (r: Vec<ModType>)
        ensures
            r@ == seq![
                ModType::GenericPak,
                ModType::LogicMod,
                ModType::Ue4ssLua,
                ModType::Ue4ssDll,
                ModType::Ue4ssFramework,
                ModType::RootBinary,
                ModType::Movie,
                ModType::GameRootOverlay,
            ],
    {
        let r = vec![
            ModType::GenericPak,
            ModType::LogicMod,
            ModType::Ue4ssLua,
            ModType::Ue4ssDll,
            ModType::Ue4ssFramework,
            ModType::RootBinary,
            ModType::Movie,
            ModType::GameRootOverlay,
        ];
        assert(r@ =~= seq![
            ModType::GenericPak,
            ModType::LogicMod,
            ModType::Ue4ssLua,
            ModType::Ue4ssDll,
            ModType::Ue4ssFramework,
            ModType::RootBinary,
            ModType::Movie,
            ModType::GameRootOverlay,
        ]);
        r
    }
}

/// The position of a type in declaration order.
pub open spec fn t_index(t: ModType) -> int {
    match t {
        ModType::Ue4ssFramework => 0,
        ModType::LogicMod => 1,
        ModType::Ue4ssLua => 2,
        ModType::Ue4ssDll => 3,
        ModType::Movie => 4,
        ModType::RootBinary => 5,
        ModType::GenericPak => 6,
        ModType::GameRootOverlay => 7,
        ModType::Unknown => 8,
    }
}

/// How sure the detector is about a classification.
#[derive(Debug, Clone, Copy, PartialEq, Eq, Structural, Hash)]
pub enum Confidence {
    /// An unambiguous structural marker was found.
    High,
    /// Inferred from file extensions alone.
    Medium,
    /// Nothing conclusive; the UI must ask before installing.
    AskUser,
}

/// One IoStore pak set. The three files must keep a common base name, and the
/// `_P` suffix must stay at the very end of that base name or the game can
/// fail to mount the archive.
#[derive(Debug, Clone, PartialEq, Eq)]
pub struct PakSet {
    /// Base name with any `_P` suffix removed.
    pub base: String,
    pub pak: String,
    pub utoc: Option<String>,
    pub ucas: Option<String>,
    /// Whether the original file already carried the `_P` suffix.
    pub had_p_suffix: bool,
}

pub struct PakSetModel {
    pub base: Seq<char>,
    pub pak: Seq<char>,
    pub utoc: Option<Seq<char>>,
    pub ucas: Option<Seq<char>>,
    pub had_p_suffix: bool,
}

pub open spec fn opt_view(o: Option<String>) -> Option<Seq<char>> {
    match o {
        Some(s) => Some(s@),
        None => None,
    }
}

impl View for PakSet {
    type V = PakSetModel;

    open spec fn view(&self) -> PakSetModel {
        PakSetModel {
            base: self.base@,
            pak: self.pak@,
            utoc: opt_view(self.utoc),
            ucas: opt_view(self.ucas),
            had_p_suffix: self.had_p_suffix,
        }
    }
}

/// The source files of a set: the pak, then the `.utoc`, then the `.ucas`.
pub open spec fn set_files(s: PakSetModel) -> Seq<Seq<char>> {
    let a = seq![s.pak];
    let b = match s.utoc {
        Some(u) => a.push(u),
        None => a,
    };
    match s.ucas {
        Some(u) => b.push(u),
        None => b,
    }
}

pub fn copy_opt(o: &Option<String>) -> (r: Option<String>)
    ensures
        opt_view(r) == opt_view(*o),
{
    match o {
        Some(s) => Some(s.clone()),
        None => None,
    }
}

impl PakSet {
    /// Every source file belonging to this set.
    pub fn files(&self) -> (r: Vec<String>)
        ensures
            string_views(r@) == set_files(self@),
    {
        let mut out: Vec<String> = Vec::new();
        out.push(self.pak.clone());
        if let Some(u) = &self.utoc {
            out.push(u.clone());
        }
        if let Some(u) = &self.ucas {
            out.push(u.clone());
        }
        assert(string_views(out@) =~= set_files(self@));
        out
    }

    /// A `.utoc` without its `.ucas` (or vice versa) will not mount.
    pub fn is_complete(&self) -> (r: bool)
        ensures
            r == (self.utoc.is_some() == self.ucas.is_some()),
    {
        self.utoc.is_some() == self.ucas.is_some()
    }

    pub fn copy(&self) -> (r: PakSet)
        ensures
            r@ == self@,
    {
        PakSet {
            base: self.base.clone(),
            pak: self.pak.clone(),
            utoc: copy_opt(&self.utoc),
            ucas: copy_opt(&self.ucas),
            had_p_suffix: self.had_p_suffix,
        }
    }
}

/// A single file's journey from the staging folder into the game.
#[derive(Debug, Clone, PartialEq, Eq)]
pub struct ComponentFile {
    /// Relative to the extraction/staging root.
    pub source: String,
    /// Relative to the game root.
    pub target: String,
}

impl View for ComponentFile {
    type V = (Seq<char>, Seq<char>);

    open spec fn view(&self) -> (Seq<char>, Seq<char>) {
        (self.source@, self.target@)
    }
}

impl ComponentFile {
    pub fn copy(&self) -> (r: ComponentFile)
        ensures
            r@ == self@,
    {
        ComponentFile { source: self.source.clone(), target: self.target.clone() }
    }
}

pub open spec fn file_views(v: Seq<ComponentFile>) -> Seq<(Seq<char>, Seq<char>)> {
    v.map_values(|f: ComponentFile| f@)
}

pub open spec fn set_views(v: Seq<PakSet>) -> Seq<PakSetModel> {
    v.map_values(|s: PakSet| s@)
}

/// A distinct payload found inside one archive.
///
/// A single download frequently mixes several of these — a logic mod bundled
/// with a cosmetic pak, say — so detection returns a list rather than a single
/// verdict, and each entry is routed independently.
#[derive(Debug, Clone, PartialEq, Eq)]
pub struct DetectedComponent {
    pub mod_type: ModType,
    pub confidence: Confidence,
    pub files: Vec<ComponentFile>,
    /// Destination root relative to the game root; informational, for the UI.
    pub target_subdir: String,
    /// For UE4SS mods, the folder name the mod must be installed under (and
    /// registered as in `mods.txt`).
    pub ue4ss_mod_name: Option<String>,
    /// Pak sets found in this component.
    pub pak_sets: Vec<PakSet>,
    /// Real problems the user should know about: a missing `_P` suffix, a
    /// half-complete IoStore set, an undetectable payload.
    pub warnings: Vec<String>,
    /// Descriptive detail shown in the install dialog. Not a problem, so it
    /// must not raise a warning marker in the mod list.
    pub notes: Vec<String>,
}


/// What a detected component says, as plain values.
pub struct ComponentModel {
    pub mod_type: ModType,
    pub confidence: Confidence,
    pub files: Seq<(Seq<char>, Seq<char>)>,
    pub target_subdir: Seq<char>,
    pub ue4ss_mod_name: Option<Seq<char>>,
    pub pak_sets: Seq<PakSetModel>,
    pub warnings: Seq<Seq<char>>,
    pub notes: Seq<Seq<char>>,
}

impl View for DetectedComponent {
    type V = ComponentModel;

    open spec fn view(&self) -> ComponentModel {
        ComponentModel {
            mod_type: self.mod_type,
            confidence: self.confidence,
            files: file_views(self.files@),
            target_subdir: self.target_subdir@,
            ue4ss_mod_name: opt_view(self.ue4ss_mod_name),
            pak_sets: set_views(self.pak_sets@),
            warnings: string_views(self.warnings@),
            notes: string_views(self.notes@),
        }
    }
}

pub open spec fn component_views(v: Seq<DetectedComponent>) -> Seq<ComponentModel> {
    v.map_values(|c: DetectedComponent| c@)
}

impl DetectedComponent {
    /// The staging-relative source of every file, in order.
    pub fn source_paths(&self) -> (r: Vec<String>)
        ensures
            r.len() == self.files.len(),
            forall|i: int| 0 <= i < r.len() ==> #[trigger] r@[i]@ == self.files@[i].source@,
    {
        let mut out: Vec<String> = Vec::new();
        let mut i: usize = 0;
        while i < self.files.len()
            invariant
                i <= self.files.len(),
                out.len() == i,
                forall|k: int| 0 <= k < i ==> #[trigger] out@[k]@ == self.files@[k].source@,
            decreases self.files.len() - i,
        {
            out.push(self.files[i].source.clone());
            i = i + 1;
        }
        out
    }
}

} // verus!
