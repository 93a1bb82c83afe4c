//! Updating the game's upscaler DLLs.
//!
//! Stellar Blade ships DLSS and FSR as ordinary DLLs next to the executable,
//! and both vendors keep a stable ABI within a line, so a newer DLL of the
//! same line can be dropped in without the game knowing. There is no patching
//! involved, only file replacement, which is why it can be undone exactly.
//!
//! Two constraints shape everything here: the line matters more than the
//! number (FSR 3.1 and FSR 4 do not share a DLL name or an ABI), and the
//! hardware matters (DLSS Frame Generation needs an RTX 40 or newer).

use vstd::prelude::*;

use crate::gpu::Capability;
use crate::plan::{trim, trim_exec};
use crate::text::{
    chars_eq, chars_of, concat_chars, digits_value, lower, lower_chars, parse_unsigned,
    parse_unsigned_of, split, split_chars, string_from_chars, views, lemma_split_nonempty,
};

verus! {

/// What can go wrong reading an upscaler DLL.
#[derive(Debug)]
pub enum UpscalerError {
    /// The file could not be read; the message says why.
    Io { path: String, message: String },
    /// The file is not a Windows DLL.
    NotAPe(String),
    /// The file carries no version information.
    NoVersion(String),
}

/// A replaceable upscaler DLL.
///
/// Named after what the file does rather than the marketing name, because the
/// three DLSS DLLs are independent: a machine can take a newer Super
/// Resolution without being able to run Frame Generation at all.
#[derive(Debug, Clone, Copy, PartialEq, Eq, Structural, Hash)]
pub enum Component {
    /// `nvngx_dlss.dll` — DLSS Super Resolution.
    DlssSuperResolution,
    /// `nvngx_dlssg.dll` — DLSS Frame Generation.
    DlssFrameGeneration,
    /// `nvngx_dlssd.dll` — DLSS Ray Reconstruction.
    DlssRayReconstruction,
    /// `amd_fidelityfx_dx12.dll` — FSR on Direct3D 12.
    FsrDx12,
    /// `amd_fidelityfx_vk.dll` — FSR on Vulkan.
    FsrVulkan,
}

#[derive(Debug, Clone, Copy, PartialEq, Eq, Structural, Hash)]
pub enum Family {
    Dlss,
    Fsr,
}

pub open spec fn component_file(c: Component) -> Seq<char> {
    match c {
        Component::DlssSuperResolution => "nvngx_dlss.dll"@,
        Component::DlssFrameGeneration => "nvngx_dlssg.dll"@,
        Component::DlssRayReconstruction => "nvngx_dlssd.dll"@,
        Component::FsrDx12 => "amd_fidelityfx_dx12.dll"@,
        Component::FsrVulkan => "amd_fidelityfx_vk.dll"@,
    }
}

pub open spec fn component_label(c: Component) -> Seq<char> {
    match c {
        Component::DlssSuperResolution => "DLSS Super Resolution"@,
        Component::DlssFrameGeneration => "DLSS Frame Generation"@,
        Component::DlssRayReconstruction => "DLSS Ray Reconstruction"@,
        Component::FsrDx12 => "FSR (DirectX 12)"@,
        Component::FsrVulkan => "FSR (Vulkan)"@,
    }
}

pub open spec fn all_components() -> Seq<Component> {
    seq![
        Component::DlssSuperResolution,
        Component::DlssFrameGeneration,
        Component::DlssRayReconstruction,
        Component::FsrDx12,
        Component::FsrVulkan,
    ]
}

pub open spec fn component_index(c: Component) -> int {
    match c {
        Component::DlssSuperResolution => 0,
        Component::DlssFrameGeneration => 1,
        Component::DlssRayReconstruction => 2,
        Component::FsrDx12 => 3,
        Component::FsrVulkan => 4,
    }
}

impl Component {
    /// The file name the game loads. Matching is case-insensitive because
    /// what is on disk depends on whoever packaged the game.
    pub fn file_name(self) -> (r: &'static str)
        ensures
            r@ == component_file(self),
    {
        match self {
            Component::DlssSuperResolution => "nvngx_dlss.dll",
            Component::DlssFrameGeneration => "nvngx_dlssg.dll",
            Component::DlssRayReconstruction => "nvngx_dlssd.dll",
            Component::FsrDx12 => "amd_fidelityfx_dx12.dll",
            Component::FsrVulkan => "amd_fidelityfx_vk.dll",
        }
    }

    pub fn label(self) -> (r: &'static str)
        ensures
            r@ == component_label(self),
    {
        match self {
            Component::DlssSuperResolution => "DLSS Super Resolution",
            Component::DlssFrameGeneration => "DLSS Frame Generation",
            Component::DlssRayReconstruction => "DLSS Ray Reconstruction",
            Component::FsrDx12 => "FSR (DirectX 12)",
            Component::FsrVulkan => "FSR (Vulkan)",
        }
    }

    pub fn family(self) -> (r: Family)
        ensures
            r == (if component_index(self) < 3 {
                Family::Dlss
            } else {
                Family::Fsr
            }),
    {
        match self {
            Component::DlssSuperResolution
            | Component::DlssFrameGeneration
            | Component::DlssRayReconstruction => Family::Dlss,
            Component::FsrDx12 | Component::FsrVulkan => Family::Fsr,
        }
    }

    /// What the hardware has to be able to do for this file to be worth having.
    pub fn required_capability(self) -> (r: Capability)
        ensures
            r == (match self {
                Component::DlssSuperResolution => Capability::DlssSuperResolution,
                Component::DlssRayReconstruction => Capability::DlssSuperResolution,
                Component::DlssFrameGeneration => Capability::DlssFrameGeneration,
                Component::FsrDx12 => Capability::Universal,
                Component::FsrVulkan => Capability::Universal,
            }),
    {
        match self {
            Component::DlssSuperResolution | Component::DlssRayReconstruction => {
                Capability::DlssSuperResolution
            },
            Component::DlssFrameGeneration => Capability::DlssFrameGeneration,
            // FSR is vendor-agnostic and runs on anything that runs the game.
            Component::FsrDx12 | Component::FsrVulkan => Capability::Universal,
        }
    }

    pub fn all() -> (r: Vec<Component>)
        ensures
            r@ == all_components(),
    {
        let r = vec![
            Component::DlssSuperResolution,
            Component::DlssFrameGeneration,
            Component::DlssRayReconstruction,
            Component::FsrDx12,
            Component::FsrVulkan,
        ];
        assert(r@ =~= all_components());
        r
    }

    /// The component whose file this is, ignoring ASCII case.
    pub fn from_file_name(name: &str) -> (r: Option<Component>)
        ensures
            match r {
                Some(c) => component_file(c) == lower(name@),
                None => forall|c: Component| component_file(c) != lower(name@),
            },
    {
        let low = lower_chars(chars_of(name).as_slice());
        let all = Component::all();
        let mut i: usize = 0;
        while i < all.len()
            invariant
                i <= all.len(),
                all@ == all_components(),
                low@ == lower(name@),
                forall|k: int| 0 <= k < i ==> component_file(#[trigger] all@[k]) != low@,
            decreases all.len() - i,
        {
            let c = all[i];
            if chars_eq(chars_of(c.file_name()).as_slice(), low.as_slice()) {
                return Some(c);
            }
            i = i + 1;
        }
        assert forall|c: Component| component_file(c) != lower(name@) by {
            assert(all@[component_index(c)] == c);
        }
        None
    }
}

/// A component's file name, written in any ASCII case, is recognised as that
/// component and as no other; the loader and the AMD helper library next to
/// them are recognised as none.
pub proof fn law_components_are_found_by_their_file_name(c: Component)
    ensures
        forall|d: Component| component_file(d) == lower(component_file(c)) <==> d == c,
        forall|d: Component| component_file(d) == lower(crate::text::upper(component_file(c))) <==> d == c,
        forall|d: Component| component_file(d) != lower("nvngx.dll"@),
        forall|d: Component| component_file(d) != lower("amd_ags_x64.dll"@),
{
    reveal_strlit("nvngx_dlss.dll");
    reveal_strlit("nvngx_dlssg.dll");
    reveal_strlit("nvngx_dlssd.dll");
    reveal_strlit("amd_fidelityfx_dx12.dll");
    reveal_strlit("amd_fidelityfx_vk.dll");
    reveal_strlit("nvngx.dll");
    reveal_strlit("amd_ags_x64.dll");
    assert(lower("nvngx_dlss.dll"@) =~= "nvngx_dlss.dll"@);
    assert(lower("nvngx_dlssg.dll"@) =~= "nvngx_dlssg.dll"@);
    assert(lower("nvngx_dlssd.dll"@) =~= "nvngx_dlssd.dll"@);
    assert(lower("amd_fidelityfx_dx12.dll"@) =~= "amd_fidelityfx_dx12.dll"@);
    assert(lower("amd_fidelityfx_vk.dll"@) =~= "amd_fidelityfx_vk.dll"@);
    assert(lower("nvngx.dll"@) =~= "nvngx.dll"@);
    assert(lower("amd_ags_x64.dll"@) =~= "amd_ags_x64.dll"@);
    crate::tree::lemma_lower_of_upper(component_file(c));
    assert("nvngx_dlssg.dll"@[10] != "nvngx_dlssd.dll"@[10]);
    assert("amd_fidelityfx_dx12.dll"@.len() != "amd_fidelityfx_vk.dll"@.len());
    assert("amd_ags_x64.dll"@[4] != "amd_fidelityfx_vk.dll"@[4]);
    assert("amd_ags_x64.dll"@[4] != "nvngx_dlssg.dll"@[4]);
}

// ---------------------------------------------------------------------------
// Versions
// ---------------------------------------------------------------------------

/// A four-part Windows file version, compared numerically.
#[derive(Debug, Clone, Copy, PartialEq, Eq, Structural, PartialOrd, Ord, Hash)]
pub struct Version(pub u16, pub u16, pub u16, pub u16);

/// The order of versions: part by part, as numbers.
pub open spec fn version_lt(a: Version, b: Version) -> bool {
    ||| a.0 < b.0
    ||| a.0 == b.0 && a.1 < b.1
    ||| a.0 == b.0 && a.1 == b.1 && a.2 < b.2
    ||| a.0 == b.0 && a.1 == b.1 && a.2 == b.2 && a.3 < b.3
}

/// `str::trim_start_matches(['v', 'V'])`.
pub open spec fn trim_vs(s: Seq<char>) -> Seq<char>
    decreases s.len(),
{
    if s.len() > 0 && (s[0] == 'v' || s[0] == 'V') {
        trim_vs(s.drop_first())
    } else {
        s
    }
}

/// The `.`-separated parts of a version text.
pub open spec fn version_parts(text: Seq<char>) -> Seq<Seq<char>> {
    split(trim_vs(trim(text)), '.')
}

/// A part of a version: absent parts count as zero.
pub open spec fn part_at(p: Seq<Seq<char>>, k: int) -> Option<nat> {
    if k < p.len() {
        parse_unsigned_of(p[k], 65535)
    } else {
        Some(0)
    }
}

/// What `Version::parse` gives: one to four numeric parts, each fitting in
/// sixteen bits.
pub open spec fn parse_version_of(text: Seq<char>) -> Option<Version> {
    let p = version_parts(text);
    if p.len() <= 4 && parse_unsigned_of(p[0], 65535) is Some && part_at(p, 1) is Some && part_at(
        p,
        2,
    ) is Some && part_at(p, 3) is Some {
        Some(
            Version(
                parse_unsigned_of(p[0], 65535)->0 as u16,
                part_at(p, 1)->0 as u16,
                part_at(p, 2)->0 as u16,
                part_at(p, 3)->0 as u16,
            ),
        )
    } else {
        None
    }
}

/// `n` in decimal, without leading zeros.
pub open spec fn decimal(n: nat) -> Seq<char>
    decreases n,
{
    if n < 10 {
        seq![crate::loadorder::digit(n as int)]
    } else {
        decimal(n / 10).push(crate::loadorder::digit((n % 10) as int))
    }
}

/// How a version is shown: the build number only when it is not zero.
pub open spec fn version_text(v: Version) -> Seq<char> {
    let head = decimal(v.0 as nat) + seq!['.'] + decimal(v.1 as nat) + seq!['.'] + decimal(
        v.2 as nat,
    );
    if v.3 == 0 {
        head
    } else {
        head + seq!['.'] + decimal(v.3 as nat)
    }
}

/// `n` in decimal.
pub fn decimal_exec(n: u64) -> (r: Vec<char>)
    ensures
        r@ == decimal(n as nat),
    decreases n,
{
    if n < 10 {
        let b: u8 = (n + 48) as u8;
        let mut v: Vec<char> = Vec::new();
        v.push(b as char);
        assert(v@ =~= decimal(n as nat));
        v
    } else {
        let mut v = decimal_exec(n / 10);
        let b: u8 = (n % 10 + 48) as u8;
        v.push(b as char);
        assert(v@ =~= decimal(n as nat));
        v
    }
}

fn trim_vs_exec(s: &[char]) -> (r: Vec<char>)
    ensures
        r@ == trim_vs(s@),
{
    let mut i: usize = 0;
    assert(s@.subrange(0, s.len() as int) =~= s@);
    while i < s.len() && (s[i] == 'v' || s[i] == 'V')
        invariant
            i <= s.len(),
            trim_vs(s@) == trim_vs(s@.subrange(i as int, s.len() as int)),
        decreases s.len() - i,
    {
        assert(s@.subrange(i as int, s.len() as int).drop_first() =~= s@.subrange(
            i + 1,
            s.len() as int,
        ));
        i = i + 1;
    }
    crate::text::slice_chars(s, i, s.len())
}

impl Version {
    /// Parse a `1.2.3` or `v1.2.3.4` style string.
    pub fn parse(text: &str) -> (r: Option<Version>)
        ensures
            r == parse_version_of(text@),
    {
        let t = trim_exec(chars_of(text).as_slice());
        let t = trim_vs_exec(t.as_slice());
        let parts = split_chars(t.as_slice(), '.');
        proof {
            lemma_split_nonempty(t@, '.');
        }
        let ghost p = views(parts@);
        assert(p == version_parts(text@));
        if parts.len() > 4 {
            return None;
        }
        let mut nums: Vec<u16> = Vec::new();
        let mut k: usize = 0;
        while k < 4
            invariant
                k <= 4,
                parts.len() <= 4,
                p == views(parts@),
                p == version_parts(text@),
                nums.len() == k,
                forall|j: int| 0 <= j < k ==> part_at(p, j) == Some(#[trigger] nums@[j] as nat),
            decreases 4 - k,
        {
            if k < parts.len() {
                assert(parts@[k as int]@ == p[k as int]);
                match parse_unsigned(parts[k].as_slice(), 65535) {
                    Some(v) => {
                        nums.push(v as u16);
                    },
                    None => {
                        return None;
                    },
                }
            } else {
                nums.push(0);
            }
            k = k + 1;
        }
        assert(part_at(p, 0) == parse_unsigned_of(p[0], 65535));
        let r = Version(nums[0], nums[1], nums[2], nums[3]);
        assert(part_at(p, 0) == Some(nums@[0] as nat));
        assert(part_at(p, 1) == Some(nums@[1] as nat));
        assert(part_at(p, 2) == Some(nums@[2] as nat));
        assert(part_at(p, 3) == Some(nums@[3] as nat));
        assert(Some(r) == parse_version_of(text@));
        Some(r)
    }

    /// How the version is shown; the fourth part is a build counter nobody
    /// recognises, so it only shows when it carries information.
    pub fn to_text(&self) -> (r: String)
        ensures
            r@ == version_text(*self),
    {
        let mut v = decimal_exec(self.0 as u64);
        v.push('.');
        let v = concat_chars(v.as_slice(), decimal_exec(self.1 as u64).as_slice());
        let mut v = v;
        v.push('.');
        let v = concat_chars(v.as_slice(), decimal_exec(self.2 as u64).as_slice());
        if self.3 == 0 {
            assert(v@ =~= version_text(*self));
            string_from_chars(v.as_slice())
        } else {
            let mut w = v;
            w.push('.');
            let w = concat_chars(w.as_slice(), decimal_exec(self.3 as u64).as_slice());
            assert(w@ =~= version_text(*self));
            string_from_chars(w.as_slice())
        }
    }

    /// Whether this version comes before another.
    pub fn is_before(&self, other: &Version) -> (r: bool)
        ensures
            r == version_lt(*self, *other),
    {
        if self.0 != other.0 {
            return self.0 < other.0;
        }
        if self.1 != other.1 {
            return self.1 < other.1;
        }
        if self.2 != other.2 {
            return self.2 < other.2;
        }
        self.3 < other.3
    }
}

} // verus!
