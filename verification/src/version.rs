//! Resolves the host runtime's self-reported API identifier to one of the
//! supported API generations and derives the capability flags and the
//! deprecation status that gate generation-specific code.

use vstd::prelude::*;

verus! {

/// Numeric API identifier at which each supported generation begins,
/// drawn from the host runtime's own versioning scheme.
pub const API_ID_PHP80: u32 = 2020_09_30;
pub const API_ID_PHP81: u32 = 2021_09_02;
pub const API_ID_PHP82: u32 = 2022_08_29;
pub const API_ID_PHP83: u32 = 2023_08_31;
pub const API_ID_PHP84: u32 = 2024_09_24;

/// One supported release line of the host runtime, ordered by recency.
#[derive(Clone, Copy, Debug, PartialEq, Eq, Structural)]
pub enum ApiGeneration {
    Php80,
    Php81,
    Php82,
    Php83,
    Php84,
}

/// The full list of supported generations, oldest first.
pub open spec fn all_generations() -> Seq<ApiGeneration> {
    seq![
        ApiGeneration::Php80,
        ApiGeneration::Php81,
        ApiGeneration::Php82,
        ApiGeneration::Php83,
        ApiGeneration::Php84,
    ]
}

impl ApiGeneration {
    /// Position in release order, oldest first.
    pub open spec fn rank_spec(self) -> int {
        match self {
            ApiGeneration::Php80 => 0,
            ApiGeneration::Php81 => 1,
            ApiGeneration::Php82 => 2,
            ApiGeneration::Php83 => 3,
            ApiGeneration::Php84 => 4,
        }
    }

    /// The identifier at which this generation's interval begins.
    pub open spec fn id_spec(self) -> u32 {
        match self {
            ApiGeneration::Php80 => API_ID_PHP80,
            ApiGeneration::Php81 => API_ID_PHP81,
            ApiGeneration::Php82 => API_ID_PHP82,
            ApiGeneration::Php83 => API_ID_PHP83,
            ApiGeneration::Php84 => API_ID_PHP84,
        }
    }

    /// Exclusive upper bound of this generation's identifier interval:
    /// the next generation's identifier, or one past its own for the
    /// newest generation, whose interval is closed at its identifier.
    pub open spec fn upper_spec(self) -> int {
        match self {
            ApiGeneration::Php80 => API_ID_PHP81 as int,
            ApiGeneration::Php81 => API_ID_PHP82 as int,
            ApiGeneration::Php82 => API_ID_PHP83 as int,
            ApiGeneration::Php83 => API_ID_PHP84 as int,
            ApiGeneration::Php84 => API_ID_PHP84 + 1,
        }
    }

    /// The identifier at which this generation's interval begins.
    pub fn id(self) -> (r: u32)
        ensures
            r == self.id_spec(),
    {
        match self {
            ApiGeneration::Php80 => API_ID_PHP80,
            ApiGeneration::Php81 => API_ID_PHP81,
            ApiGeneration::Php82 => API_ID_PHP82,
            ApiGeneration::Php83 => API_ID_PHP83,
            ApiGeneration::Php84 => API_ID_PHP84,
        }
    }

    /// Position in release order, oldest first.
    pub fn rank(self) -> (r: usize)
        ensures
            r == self.rank_spec(),
    {
        match self {
            ApiGeneration::Php80 => 0,
            ApiGeneration::Php81 => 1,
            ApiGeneration::Php82 => 2,
            ApiGeneration::Php83 => 3,
            ApiGeneration::Php84 => 4,
        }
    }

    /// The oldest supported generation.
    pub fn min() -> (r: Self)
        ensures
            r == ApiGeneration::Php80,
    {
        ApiGeneration::Php80
    }

    /// The newest supported generation.
    pub fn max() -> (r: Self)
        ensures
            r == ApiGeneration::Php84,
    {
        ApiGeneration::Php84
    }

    /// All supported generations, oldest first.
    pub fn versions() -> (r: Vec<ApiGeneration>)
        ensures
            r@ == all_generations(),
    {
        let mut v: Vec<ApiGeneration> = Vec::new();
        v.push(ApiGeneration::Php80);
        v.push(ApiGeneration::Php81);
        v.push(ApiGeneration::Php82);
        v.push(ApiGeneration::Php83);
        v.push(ApiGeneration::Php84);
        proof {
            assert(v@ =~= all_generations());
        }
        v
    }

    /// The capability flag set: every generation at or before this one,
    /// oldest first.
    pub fn supported_apis(self) -> (r: Vec<ApiGeneration>)
        ensures
            r@ == all_generations().take(self.rank_spec() + 1),
    {
        let all = Self::versions();
        let mut v: Vec<ApiGeneration> = Vec::new();
        let end = self.rank() + 1;
        let mut i: usize = 0;
        while i < end
            invariant
                end == self.rank_spec() + 1,
                i <= end,
                all@ == all_generations(),
                v@ == all_generations().take(i as int),
            decreases end - i,
        {
            v.push(all[i]);
            i = i + 1;
            proof {
                assert(v@ =~= all_generations().take(i as int));
            }
        }
        v
    }

    /// Name of the build flag that marks this generation as available.
    pub fn cfg_name(self) -> (r: &'static str)
        ensures
            r@ == self.cfg_name_spec(),
    {
        match self {
            ApiGeneration::Php80 => "php80",
            ApiGeneration::Php81 => "php81",
            ApiGeneration::Php82 => "php82",
            ApiGeneration::Php83 => "php83",
            ApiGeneration::Php84 => "php84",
        }
    }

    /// Name of the build flag that marks this generation as available.
    pub open spec fn cfg_name_spec(self) -> Seq<char> {
        match self {
            ApiGeneration::Php80 => "php80"@,
            ApiGeneration::Php81 => "php81"@,
            ApiGeneration::Php82 => "php82"@,
            ApiGeneration::Php83 => "php83"@,
            ApiGeneration::Php84 => "php84"@,
        }
    }

    /// A generation slated for removal: only the oldest supported one.
    pub fn is_deprecated(self) -> (r: bool)
        ensures
            r == (self == ApiGeneration::Php80),
    {
        match self {
            ApiGeneration::Php80 => true,
            _ => false,
        }
    }
}

/// The reported identifier lies in `g`'s half-open interval
/// (closed at its own identifier for the newest generation).
pub open spec fn interval_contains(g: ApiGeneration, v: int) -> bool {
    g.id_spec() <= v < g.upper_spec()
}

/// Failure to resolve: the reported identifier, with the supported range.
#[derive(Clone, Copy, Debug, PartialEq, Eq, Structural)]
pub struct UnsupportedVersion {
    pub version: u32,
    pub min_supported: u32,
    pub max_supported: u32,
}

/// Maps the host runtime's reported API identifier to the generation
/// whose interval contains it; identifiers outside the supported range
/// are rejected with the offending value and the supported bounds.
pub fn resolve(v: u32) -> (r: Result<ApiGeneration, UnsupportedVersion>)
    ensures
        r is Ok <==> API_ID_PHP80 <= v <= API_ID_PHP84,
        r matches Ok(g) ==> interval_contains(g, v as int),
        r matches Err(e) ==> e == (UnsupportedVersion {
            version: v,
            min_supported: API_ID_PHP80,
            max_supported: API_ID_PHP84,
        }),
{
    if API_ID_PHP80 <= v && v < API_ID_PHP81 {
        Ok(ApiGeneration::Php80)
    } else if API_ID_PHP81 <= v && v < API_ID_PHP82 {
        Ok(ApiGeneration::Php81)
    } else if API_ID_PHP82 <= v && v < API_ID_PHP83 {
        Ok(ApiGeneration::Php82)
    } else if API_ID_PHP83 <= v && v < API_ID_PHP84 {
        Ok(ApiGeneration::Php83)
    } else if v == API_ID_PHP84 {
        Ok(ApiGeneration::Php84)
    } else {
        Err(UnsupportedVersion {
            version: v,
            min_supported: API_ID_PHP80,
            max_supported: API_ID_PHP84,
        })
    }
}

/// The generations' intervals are disjoint: an identifier lies in the
/// interval of at most one generation.
pub proof fn lemma_generation_unique(g1: ApiGeneration, g2: ApiGeneration, v: int)
    requires
        interval_contains(g1, v),
        interval_contains(g2, v),
    ensures
        g1 == g2,
{
}

/// The generations' intervals cover the whole supported range: every
/// supported identifier lies in the interval of some generation.
pub proof fn lemma_supported_covered(v: int)
    requires
        API_ID_PHP80 <= v <= API_ID_PHP84,
    ensures
        exists|g: ApiGeneration| interval_contains(g, v),
{
    if v < API_ID_PHP81 {
        assert(interval_contains(ApiGeneration::Php80, v));
    } else if v < API_ID_PHP82 {
        assert(interval_contains(ApiGeneration::Php81, v));
    } else if v < API_ID_PHP83 {
        assert(interval_contains(ApiGeneration::Php82, v));
    } else if v < API_ID_PHP84 {
        assert(interval_contains(ApiGeneration::Php83, v));
    } else {
        assert(interval_contains(ApiGeneration::Php84, v));
    }
}

/// Everything the build derives from the reported API identifier: the
/// selected generation, its capability flag set, and whether the
/// selection is deprecated.
#[derive(Debug)]
pub struct VersionResolution {
    pub generation: ApiGeneration,
    pub flags: Vec<ApiGeneration>,
    pub deprecated: bool,
}

/// Resolves the reported identifier and derives the capability flags
/// (one per generation at or before the selected one) and the
/// deprecation status (set only for the oldest supported generation).
pub fn resolve_build(v: u32) -> (r: Result<VersionResolution, UnsupportedVersion>)
    ensures
        r is Ok <==> API_ID_PHP80 <= v <= API_ID_PHP84,
        r matches Ok(res) ==> interval_contains(res.generation, v as int)
            && res.flags@ == all_generations().take(res.generation.rank_spec() + 1)
            && res.deprecated == (res.generation == ApiGeneration::Php80),
        r matches Err(e) ==> e == (UnsupportedVersion {
            version: v,
            min_supported: API_ID_PHP80,
            max_supported: API_ID_PHP84,
        }),
{
    match resolve(v) {
        Ok(generation) => Ok(VersionResolution {
            generation,
            flags: generation.supported_apis(),
            deprecated: generation.is_deprecated(),
        }),
        Err(e) => Err(e),
    }
}

} // verus!
