//! How the cache stores data.

use crate::text::same_text;
use std::str::FromStr;
use vstd::prelude::*;

verus! {

/// What the server caches, as chosen on the command line and sent over the wire.
#[derive(Clone, Copy, Debug, PartialEq, Eq, Structural)]
pub enum CacheMode {
    /// Cache parquet files.
    Parquet,
    /// Cache liquid arrays; transcoding happens in the background.
    Liquid,
    /// Cache liquid arrays; transcoding blocks query execution.
    LiquidEagerTranscode,
    /// Cache Arrow arrays.
    Arrow,
    /// Serve files as they are.
    StaticFileServer,
}

impl Default for CacheMode {
    fn default() -> (mode: Self)
        ensures
            mode == CacheMode::Liquid,
    {
        CacheMode::Liquid
    }
}

impl CacheMode {
    /// The name of a mode.
    pub open spec fn name(self) -> Seq<char> {
        match self {
            CacheMode::Parquet => "parquet"@,
            CacheMode::Liquid => "liquid"@,
            CacheMode::LiquidEagerTranscode => "liquid_eager_transcode"@,
            CacheMode::Arrow => "arrow"@,
            CacheMode::StaticFileServer => "static_file_server"@,
        }
    }

    /// The message for a text that names no mode.
    pub open spec fn invalid_name(text: Seq<char>) -> Seq<char> {
        "Invalid cache mode: "@ + text
            + ", must be one of: parquet, liquid, liquid_eager_transcode, arrow, static_file_server"@
    }

    /// The name of the mode.
    pub fn to_string(&self) -> (text: String)
        ensures
            text@ == self.name(),
    {
        let name: &str = match self {
            CacheMode::Parquet => "parquet",
            CacheMode::Liquid => "liquid",
            CacheMode::LiquidEagerTranscode => "liquid_eager_transcode",
            CacheMode::Arrow => "arrow",
            CacheMode::StaticFileServer => "static_file_server",
        };
        name.to_owned()
    }

    /// The mode with the given name; a message that lists the names when there is none.
    pub fn from_name(text: &str) -> (mode: Result<CacheMode, String>)
        ensures
            forall|m: CacheMode| mode == Ok::<CacheMode, String>(m) <==> text@ == #[trigger] m.name(),
            mode is Err <==> forall|m: CacheMode| text@ != #[trigger] m.name(),
            mode is Err ==> mode->Err_0@ == CacheMode::invalid_name(text@),
    {
        proof {
            CacheMode::lemma_names_differ();
        }
        if same_text(text, "parquet") {
            assert(text@ == CacheMode::Parquet.name());
            Ok(CacheMode::Parquet)
        } else if same_text(text, "liquid") {
            assert(text@ == CacheMode::Liquid.name());
            Ok(CacheMode::Liquid)
        } else if same_text(text, "liquid_eager_transcode") {
            assert(text@ == CacheMode::LiquidEagerTranscode.name());
            Ok(CacheMode::LiquidEagerTranscode)
        } else if same_text(text, "arrow") {
            assert(text@ == CacheMode::Arrow.name());
            Ok(CacheMode::Arrow)
        } else if same_text(text, "static_file_server") {
            assert(text@ == CacheMode::StaticFileServer.name());
            Ok(CacheMode::StaticFileServer)
        } else {
            let mut message = String::new();
            message.append("Invalid cache mode: ");
            message.append(text);
            message.append(
                ", must be one of: parquet, liquid, liquid_eager_transcode, arrow, static_file_server",
            );
            assert(message@ =~= CacheMode::invalid_name(text@));
            Err(message)
        }
    }

    proof fn lemma_names_differ()
        ensures
            forall|a: CacheMode, b: CacheMode| #[trigger] a.name() == #[trigger] b.name() ==> a == b,
    {
        reveal_strlit("parquet");
        reveal_strlit("liquid");
        reveal_strlit("liquid_eager_transcode");
        reveal_strlit("arrow");
        reveal_strlit("static_file_server");
        assert forall|a: CacheMode, b: CacheMode| #[trigger] a.name() == #[trigger] b.name() implies a
            == b by {
            assert(a.name().len() == b.name().len());
        }
    }

    /// No two modes share a name, so the name of a mode gives the mode back.
    pub proof fn names_are_distinct(a: CacheMode, b: CacheMode)
        requires
            a.name() == b.name(),
        ensures
            a == b,
    {
        CacheMode::lemma_names_differ();
    }
}

impl FromStr for CacheMode {
    type Err = String;

    /// The mode with the given name. See [CacheMode::from_name].
    fn from_str(s: &str) -> (mode: Result<Self, Self::Err>)
        ensures
            forall|m: CacheMode| mode == Ok::<CacheMode, String>(m) <==> s@ == #[trigger] m.name(),
            mode is Err <==> forall|m: CacheMode| s@ != #[trigger] m.name(),
            mode is Err ==> mode->Err_0@ == CacheMode::invalid_name(s@),
    {
        CacheMode::from_name(s)
    }
}

/// How arrays are held in the cache.
#[derive(Clone, Copy, Debug, PartialEq, Eq, Structural)]
pub enum LiquidCacheMode {
    /// Arrays are held as they were read.
    Arrow,
    /// Arrays are transcoded into liquid arrays.
    Liquid {
        /// Whether the transcoding happens in the background.
        transcode_in_background: bool,
    },
}

impl Default for LiquidCacheMode {
    fn default() -> (mode: Self)
        ensures
            mode == (LiquidCacheMode::Liquid { transcode_in_background: true }),
    {
        LiquidCacheMode::Liquid { transcode_in_background: true }
    }
}

impl LiquidCacheMode {
    /// Whether a mode of the server holds arrays at all.
    pub open spec fn holds_arrays(mode: CacheMode) -> bool {
        mode != CacheMode::Parquet && mode != CacheMode::StaticFileServer
    }

    /// How a server mode that holds arrays holds them.
    pub open spec fn spec_of_cache_mode(mode: CacheMode) -> LiquidCacheMode {
        if mode == CacheMode::Arrow {
            LiquidCacheMode::Arrow
        } else {
            LiquidCacheMode::Liquid { transcode_in_background: mode == CacheMode::Liquid }
        }
    }

    /// How a server mode holds arrays. The modes that hold files instead have no answer.
    pub fn from_cache_mode(value: CacheMode) -> (mode: LiquidCacheMode)
        requires
            LiquidCacheMode::holds_arrays(value),
        ensures
            mode == LiquidCacheMode::spec_of_cache_mode(value),
            value == CacheMode::Arrow ==> mode == LiquidCacheMode::Arrow,
            value == CacheMode::Liquid ==> mode == (LiquidCacheMode::Liquid {
                transcode_in_background: true,
            }),
            value == CacheMode::LiquidEagerTranscode ==> mode == (LiquidCacheMode::Liquid {
                transcode_in_background: false,
            }),
    {
        match value {
            CacheMode::Arrow => LiquidCacheMode::Arrow,
            CacheMode::LiquidEagerTranscode => LiquidCacheMode::Liquid {
                transcode_in_background: false,
            },
            _ => LiquidCacheMode::Liquid { transcode_in_background: true },
        }
    }
}

/// The server modes that hold arrays are the three that are not about files. One holds them as they
/// were read, and the other two transcode them, the one in the background and the other at once.
pub proof fn server_modes_hold_arrays()
    ensures
        !LiquidCacheMode::holds_arrays(CacheMode::Parquet),
        !LiquidCacheMode::holds_arrays(CacheMode::StaticFileServer),
        LiquidCacheMode::holds_arrays(CacheMode::Arrow),
        LiquidCacheMode::holds_arrays(CacheMode::Liquid),
        LiquidCacheMode::holds_arrays(CacheMode::LiquidEagerTranscode),
        LiquidCacheMode::spec_of_cache_mode(CacheMode::Arrow) == LiquidCacheMode::Arrow,
        LiquidCacheMode::spec_of_cache_mode(CacheMode::Liquid) == (LiquidCacheMode::Liquid {
            transcode_in_background: true,
        }),
        LiquidCacheMode::spec_of_cache_mode(CacheMode::LiquidEagerTranscode)
            == (LiquidCacheMode::Liquid { transcode_in_background: false }),
{
}

/// Different server modes that hold arrays hold them differently.
pub proof fn server_modes_differ(a: CacheMode, b: CacheMode)
    requires
        LiquidCacheMode::holds_arrays(a),
        LiquidCacheMode::holds_arrays(b),
        LiquidCacheMode::spec_of_cache_mode(a) == LiquidCacheMode::spec_of_cache_mode(b),
    ensures
        a == b,
{
}

/// A text that names no mode is named in the message, which lists the names of all modes.
pub proof fn message_names_text_and_modes(text: Seq<char>)
    ensures
        CacheMode::invalid_name(text) == "Invalid cache mode: "@ + text
            + ", must be one of: parquet, liquid, liquid_eager_transcode, arrow, static_file_server"@,
        CacheMode::Parquet.name() == "parquet"@,
        CacheMode::Liquid.name() == "liquid"@,
        CacheMode::LiquidEagerTranscode.name() == "liquid_eager_transcode"@,
        CacheMode::Arrow.name() == "arrow"@,
        CacheMode::StaticFileServer.name() == "static_file_server"@,
{
}

} // verus!
