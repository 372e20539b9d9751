//! Run configuration: adapter selection, round templates, rounds and the
//! adapter's argument bag, as the library sees them once parsed.

use crate::common::TestrpcError;
use crate::text::same_text;
use vstd::prelude::*;
use vstd::string::StringExecFns;

verus! {

/// Transport used to deliver transactions.
#[derive(Debug, Clone, Copy, PartialEq, Eq, Structural)]
pub enum Adapter {
    Hotshot,
    Libp2p,
    Autobahn,
}

/// Lower-case name of an adapter.
pub open spec fn adapter_name(a: Adapter) -> Seq<char> {
    match a {
        Adapter::Hotshot => "hotshot"@,
        Adapter::Libp2p => "libp2p"@,
        Adapter::Autobahn => "autobahn"@,
    }
}

impl Adapter {
    /// Reads an adapter from its lower-case name.
    pub fn from_name(s: &str) -> (r: Result<Adapter, TestrpcError>)
        ensures
            s@ == "hotshot"@ <==> r == Ok::<Adapter, TestrpcError>(Adapter::Hotshot),
            s@ == "libp2p"@ <==> r == Ok::<Adapter, TestrpcError>(Adapter::Libp2p),
            s@ == "autobahn"@ <==> r == Ok::<Adapter, TestrpcError>(Adapter::Autobahn),
            r matches Ok(a) ==> adapter_name(a) == s@,
            r is Err ==> (r matches Err(TestrpcError::UnsupportedAdapter(m)) && m@ == s@),
    {
        proof {
            reveal_strlit("hotshot");
            reveal_strlit("libp2p");
            reveal_strlit("autobahn");
            assert("hotshot"@.len() == 7 && "libp2p"@.len() == 6 && "autobahn"@.len() == 8);
        }
        if same_text(s, "hotshot") {
            Ok(Adapter::Hotshot)
        } else if same_text(s, "libp2p") {
            Ok(Adapter::Libp2p)
        } else if same_text(s, "autobahn") {
            Ok(Adapter::Autobahn)
        } else {
            Err(TestrpcError::UnsupportedAdapter(String::from_str(s)))
        }
    }

    /// The adapter's lower-case name.
    pub fn name(&self) -> (r: String)
        ensures
            r@ == adapter_name(*self),
    {
        match self {
            Adapter::Hotshot => String::from_str("hotshot"),
            Adapter::Libp2p => String::from_str("libp2p"),
            Adapter::Autobahn => String::from_str("autobahn"),
        }
    }
}

/// Shape of the transactions of a round.
#[derive(Debug, Clone)]
pub struct RoundTemplate {
    pub txs: usize,
    pub tx_size: usize,
    pub latency: Option<String>,
}

impl RoundTemplate {
    /// A copy of the template.
    pub fn duplicate(&self) -> (r: RoundTemplate)
        ensures
            r == *self,
    {
        let latency = match &self.latency {
            Some(l) => Some(l.clone()),
            None => None,
        };
        RoundTemplate { txs: self.txs, tx_size: self.tx_size, latency }
    }
}

/// A named round template.
#[derive(Debug, Clone)]
pub struct NamedTemplate {
    pub name: String,
    pub template: RoundTemplate,
}

/// The first template named `name`.
pub open spec fn lookup_template(ts: Seq<NamedTemplate>, name: Seq<char>) -> Option<RoundTemplate>
    decreases ts.len(),
{
    if ts.len() == 0 {
        None
    } else if ts[0].name@ == name {
        Some(ts[0].template)
    } else {
        lookup_template(ts.drop_first(), name)
    }
}

/// Finds the first template named `name`.
pub fn find_template(ts: &Vec<NamedTemplate>, name: &String) -> (r: Option<RoundTemplate>)
    ensures
        r == lookup_template(ts@, name@),
{
    let mut i: usize = 0;
    assert(ts@.skip(0) =~= ts@);
    while i < ts.len()
        invariant
            i <= ts@.len(),
            lookup_template(ts@, name@) == lookup_template(ts@.skip(i as int), name@),
        decreases ts@.len() - i,
    {
        assert(ts@.skip(i as int).drop_first() =~= ts@.skip(i + 1));
        if ts[i].name == *name {
            return Some(ts[i].template.duplicate());
        }
        i = i + 1;
    }
    None
}

/// One round: the endpoints it targets (indices into the resolved endpoint
/// list) and its template, inline or by name.
#[derive(Debug, Clone)]
pub struct Round {
    pub rpcs: Vec<usize>,
    pub repeat: Option<usize>,
    pub template: Option<RoundTemplate>,
    pub use_template: Option<String>,
}

/// Template of a round: the inline one, else the named one.
pub open spec fn round_template(round: Round, ts: Seq<NamedTemplate>) -> Option<RoundTemplate> {
    match round.template {
        Some(t) => Some(t),
        None => match round.use_template {
            Some(name) => lookup_template(ts, name@),
            None => None,
        },
    }
}

impl Round {
    /// Resolves the round's template: the inline one if present, else the
    /// named one; `None` when neither resolves.
    pub fn get_template(&self, round_templates: &Vec<NamedTemplate>) -> (r: Option<RoundTemplate>)
        ensures
            r == round_template(*self, round_templates@),
    {
        if let Some(template) = &self.template {
            return Some(template.duplicate());
        }
        if let Some(template_name) = &self.use_template {
            return find_template(round_templates, template_name);
        }
        None
    }
}

/// A loosely typed value of the adapter's argument bag.
#[derive(Debug, Clone, PartialEq, Eq)]
pub enum ArgValue {
    Str(String),
    /// A non-negative integer.
    Unsigned(u64),
    /// Anything else (negative or fractional numbers, lists, maps, ...).
    Other,
}

/// One entry of the adapter's argument bag.
#[derive(Debug, Clone, PartialEq, Eq)]
pub struct Arg {
    pub key: String,
    pub value: ArgValue,
}

/// The value of the first argument named `key`.
pub open spec fn lookup_arg(args: Seq<Arg>, key: Seq<char>) -> Option<ArgValue>
    decreases args.len(),
{
    if args.len() == 0 {
        None
    } else if args[0].key@ == key {
        Some(args[0].value)
    } else {
        lookup_arg(args.drop_first(), key)
    }
}

/// Finds the first argument named `key`.
pub fn find_arg<'a>(args: &'a Vec<Arg>, key: &str) -> (r: Option<&'a ArgValue>)
    ensures
        r matches Some(v) ==> lookup_arg(args@, key@) == Some(*v),
        r is None ==> lookup_arg(args@, key@) is None,
{
    let mut i: usize = 0;
    assert(args@.skip(0) =~= args@);
    while i < args.len()
        invariant
            i <= args@.len(),
            lookup_arg(args@, key@) == lookup_arg(args@.skip(i as int), key@),
        decreases args@.len() - i,
    {
        assert(args@.skip(i as int).drop_first() =~= args@.skip(i + 1));
        if same_text(args[i].key.as_str(), key) {
            return Some(&args[i].value);
        }
        i = i + 1;
    }
    None
}

/// A run configuration.
#[derive(Debug, Clone)]
pub struct Config {
    /// Interval between rounds, in seconds.
    pub interval: u64,
    /// Number of rounds to run; unbounded when absent.
    pub iterations: Option<usize>,
    /// Number of endpoints the run expects.
    pub num_of_nodes: Option<usize>,
    pub adapter: Adapter,
    /// Per-delivery timeout, in seconds.
    pub timeout: Option<u64>,
    pub round_templates: Vec<NamedTemplate>,
    pub args: Vec<Arg>,
    /// Explicit endpoints, overriding discovery.
    pub rpcs: Option<Vec<String>>,
    pub rounds: Vec<Round>,
}

/// Checks the resolved endpoint count against the expected one.
pub fn check_node_count(expected: Option<usize>, actual: usize) -> (r: Result<(), TestrpcError>)
    ensures
        r is Ok <==> (expected is None || expected == Some(actual)),
        r is Err ==> r == Err::<(), TestrpcError>(
            TestrpcError::WrongNumberOfNodes(expected->Some_0, actual),
        ),
{
    match expected {
        Some(n) if n != actual => Err(TestrpcError::WrongNumberOfNodes(n, actual)),
        _ => Ok(()),
    }
}

} // verus!
