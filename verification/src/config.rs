//! The options of the command line and the strategies that measure a folder.
use vstd::prelude::*;
use vstd::string::*;

verus! {

/// A way of measuring the size of a folder.
#[derive(Debug, Clone, Copy, PartialEq, Eq, Structural)]
pub enum Strategy {
    /// Finder's cached folder size, asked through Apple Events.
    Aev,
    /// The size recorded in the parent folder's `.DS_Store`.
    Dstore,
    /// A walk over the folder's files.
    Live,
    /// Finder's folder size, asked through an AppleScript.
    Osa,
}

/// The options of the command line. Paths are the raw bytes of the operating system's paths.
#[derive(Debug, Clone)]
pub struct Opt {
    /// List the contents of the first path.
    pub list: bool,
    /// Print sizes in bytes.
    pub bytes: bool,
    /// Sort by size.
    pub sort: bool,
    /// Traces.
    pub trace: bool,
    /// Print how long each measure took.
    pub perf: bool,
    /// Measure directories only.
    pub dironly: bool,
    /// The strategies to try, in order.
    pub strategy: Vec<Strategy>,
    /// Print the strategy used or the error met.
    pub verbose: bool,
    /// The paths to measure.
    pub paths: Vec<Vec<u8>>,
}

/// The strategies tried when none is asked for.
pub open spec fn default_strategies() -> Seq<Strategy> {
    seq![Strategy::Aev, Strategy::Dstore, Strategy::Live]
}

/// The strategies to try: those asked for, else the one that the environment value
/// `env_value` names (`aev`, `dstore` or `live`), else Apple Events, `.DS_Store` and a walk.
pub open spec fn spec_strategies_for(requested: Seq<Strategy>, env_value: Option<Seq<char>>) -> Seq<Strategy> {
    if requested.len() > 0 {
        requested
    } else {
        match env_value {
            Some(v) => if v == "aev"@ {
                seq![Strategy::Aev]
            } else if v == "dstore"@ {
                seq![Strategy::Dstore]
            } else if v == "live"@ {
                seq![Strategy::Live]
            } else {
                default_strategies()
            },
            None => default_strategies(),
        }
    }
}

/// The strategies to try for a folder, given those asked for and the value of the
/// environment variable that names one, if it is set.
pub fn strategies_for(requested: Vec<Strategy>, env_value: Option<String>) -> (res: Vec<Strategy>)
    ensures
        res@ == spec_strategies_for(
            requested@,
            match env_value {
                Some(v) => Some(v@),
                None => None,
            },
        ),
{
    if requested.len() > 0 {
        return requested;
    }
    let default = vec![Strategy::Aev, Strategy::Dstore, Strategy::Live];
    assert(default@ =~= default_strategies());
    match env_value {
        Some(v) => {
            if v == String::from_str("aev") {
                let r = vec![Strategy::Aev];
                assert(r@ =~= seq![Strategy::Aev]);
                r
            } else if v == String::from_str("dstore") {
                let r = vec![Strategy::Dstore];
                assert(r@ =~= seq![Strategy::Dstore]);
                r
            } else if v == String::from_str("live") {
                let r = vec![Strategy::Live];
                assert(r@ =~= seq![Strategy::Live]);
                r
            } else {
                default
            }
        },
        None => default,
    }
}

/// Strategies asked for are tried exactly as asked, all of them and in their order,
/// whatever the environment names.
pub proof fn law_requested_strategies_are_tried_as_given(
    requested: Seq<Strategy>,
    env_value: Option<Seq<char>>,
)
    requires
        requested.len() > 0,
    ensures
        spec_strategies_for(requested, env_value).len() == requested.len(),
        forall|i: int|
            0 <= i < requested.len() ==> #[trigger] spec_strategies_for(requested, env_value)[i]
                == requested[i],
{
}

/// With nothing asked for and nothing named by the environment, Apple Events are tried
/// first, then the `.DS_Store`, then a walk.
pub proof fn law_default_order()
    ensures
        spec_strategies_for(Seq::empty(), None).len() == 3,
        spec_strategies_for(Seq::empty(), None)[0] == Strategy::Aev,
        spec_strategies_for(Seq::empty(), None)[1] == Strategy::Dstore,
        spec_strategies_for(Seq::empty(), None)[2] == Strategy::Live,
{
}

} // verus!
