//! What a caller can choose: where in a sample the payload goes, how the walk
//! is keyed, and how the carrier is written back.

use vstd::prelude::*;

verus! {

/// How hard the PNG writer compresses.
#[derive(Clone, Copy, Debug, PartialEq, Eq, Structural)]
pub enum CompressionType {
    Default,
    Fast,
    Best,
}

impl Default for CompressionType {
    fn default() -> (c: Self)
        ensures
            c == CompressionType::Fast,
    {
        CompressionType::Fast
    }
}

impl CompressionType {
    /// The name that stands for the compression type on a command line.
    pub open spec fn name_of(self) -> Seq<char> {
        match self {
            CompressionType::Default => "default"@,
            CompressionType::Fast => "fast"@,
            CompressionType::Best => "best"@,
        }
    }

    /// The name that stands for the compression type on a command line.
    pub fn name(&self) -> (s: &'static str)
        ensures
            s@ == self.name_of(),
    {
        match self {
            CompressionType::Default => "default",
            CompressionType::Fast => "fast",
            CompressionType::Best => "best",
        }
    }
}

/// The PNG row filter.
#[derive(Clone, Copy, Debug, PartialEq, Eq, Structural)]
pub enum FilterType {
    No,
    Sub,
    Up,
    Avg,
    Paeth,
    Adaptive,
}

impl Default for FilterType {
    fn default() -> (f: Self)
        ensures
            f == FilterType::Adaptive,
    {
        FilterType::Adaptive
    }
}

impl FilterType {
    /// The name that stands for the filter type on a command line.
    pub open spec fn name_of(self) -> Seq<char> {
        match self {
            FilterType::No => "no"@,
            FilterType::Sub => "sub"@,
            FilterType::Up => "up"@,
            FilterType::Avg => "avg"@,
            FilterType::Paeth => "paeth"@,
            FilterType::Adaptive => "adaptive"@,
        }
    }

    /// The name that stands for the filter type on a command line.
    pub fn name(&self) -> (s: &'static str)
        ensures
            s@ == self.name_of(),
    {
        match self {
            FilterType::No => "no",
            FilterType::Sub => "sub",
            FilterType::Up => "up",
            FilterType::Avg => "avg",
            FilterType::Paeth => "paeth",
            FilterType::Adaptive => "adaptive",
        }
    }
}

/// The JPEG writer's compression profile.
#[derive(Clone, Copy, Debug, PartialEq, Eq, Structural)]
pub enum CompressProfile {
    Max,
    Fastest,
}

impl Default for CompressProfile {
    fn default() -> (p: Self)
        ensures
            p == CompressProfile::Max,
    {
        CompressProfile::Max
    }
}

impl CompressProfile {
    /// The name that stands for the profile on a command line.
    pub open spec fn name_of(self) -> Seq<char> {
        match self {
            CompressProfile::Max => "max"@,
            CompressProfile::Fastest => "fastest"@,
        }
    }

    /// The name that stands for the profile on a command line.
    pub fn name(&self) -> (s: &'static str)
        ensures
            s@ == self.name_of(),
    {
        match self {
            CompressProfile::Max => "max",
            CompressProfile::Fastest => "fastest",
        }
    }
}

/// How a PNG carrier is written back.
#[derive(Clone, Copy, Debug, PartialEq, Eq, Structural)]
pub struct PngOptions {
    pub compression: CompressionType,
    pub filter: FilterType,
}

impl Default for PngOptions {
    fn default() -> (o: Self)
        ensures
            o.compression == CompressionType::Fast,
            o.filter == FilterType::Adaptive,
    {
        PngOptions { compression: CompressionType::Fast, filter: FilterType::Adaptive }
    }
}

/// How a JPEG carrier is written back.
#[derive(Clone, Copy, Debug, PartialEq, Eq, Structural)]
pub struct JpegOptions {
    pub compress_profile: CompressProfile,
}

impl Default for JpegOptions {
    fn default() -> (o: Self)
        ensures
            o.compress_profile == CompressProfile::Max,
    {
        JpegOptions { compress_profile: CompressProfile::Max }
    }
}

/// How the carrier is written back, per format.
#[derive(Clone, Copy, Debug, PartialEq, Eq, Structural)]
pub struct ImageOptions {
    pub png: PngOptions,
    pub jpeg: JpegOptions,
}

impl Default for ImageOptions {
    fn default() -> (o: Self)
        ensures
            o.png.compression == CompressionType::Fast,
            o.png.filter == FilterType::Adaptive,
            o.jpeg.compress_profile == CompressProfile::Max,
    {
        ImageOptions {
            png: PngOptions { compression: CompressionType::Fast, filter: FilterType::Adaptive },
            jpeg: JpegOptions { compress_profile: CompressProfile::Max },
        }
    }
}

/// The embedding configuration as a mathematical value: what [`ExtraArgs`]
/// stands for in contracts.
pub struct EmbedConfig {
    /// The secret that keys the walk, if any.
    pub key: Option<Seq<char>>,
    /// Skip DC, zero and `bits << depth` coefficients (JPEG only).
    pub selective: bool,
    /// The lowest bit of a sample that carries payload.
    pub depth: nat,
    /// How many adjacent bits of a sample carry payload.
    pub bits: nat,
    /// The one JPEG component to walk, if not all.
    pub jpeg_comp: Option<u8>,
    /// A stride that replaces the one derived from the capacity.
    pub max_step: Option<usize>,
}

impl EmbedConfig {
    /// The window `[depth, depth + bits)` is not empty and lies inside a byte.
    pub open spec fn valid(self) -> bool {
        1 <= self.bits && self.depth + self.bits <= 8
    }
}

/// The embedding configuration.
#[derive(Clone, Debug)]
pub struct ExtraArgs {
    pub key: Option<String>,
    pub selective: bool,
    pub depth: usize,
    pub bits: usize,
    pub jpeg_comp: Option<u8>,
    pub max_step: Option<usize>,
}

impl View for ExtraArgs {
    type V = EmbedConfig;

    open spec fn view(&self) -> EmbedConfig {
        EmbedConfig {
            key: match self.key {
                Some(k) => Some(k@),
                None => None,
            },
            selective: self.selective,
            depth: self.depth as nat,
            bits: self.bits as nat,
            jpeg_comp: self.jpeg_comp,
            max_step: self.max_step,
        }
    }
}

impl Default for ExtraArgs {
    fn default() -> (e: Self)
        ensures
            e@ == (EmbedConfig {
                key: None,
                selective: false,
                depth: 0,
                bits: 1,
                jpeg_comp: None,
                max_step: None,
            }),
    {
        ExtraArgs {
            key: None,
            selective: false,
            depth: 0,
            bits: 1,
            jpeg_comp: None,
            max_step: None,
        }
    }
}

impl ExtraArgs {
    /// Whether `depth` and `bits` describe a window inside a byte.
    pub fn is_valid(&self) -> (ok: bool)
        ensures
            ok == self@.valid(),
    {
        1 <= self.bits && self.bits <= 8 && self.depth <= 8 - self.bits
    }
}

} // verus!
