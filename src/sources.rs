//! The sources that are queried, what each says about itself, and how a
//! source is chosen by name.
use vstd::prelude::*;
use crate::session::random_below;
use crate::text::{lower_of, lowercase, owned, push_str_chars, same_text};
use crate::types::{copy_strings, Config, RustFinderError, SourceInfo};

verus! {

/// The value of a source: its name and its API keys.
pub struct SourceView {
    pub name: Seq<char>,
    pub api_keys: Seq<Seq<char>>,
}

/// The kinds of source this library knows.
#[derive(Clone, Copy, Debug, PartialEq, Eq, Structural)]
pub enum SourceKind {
    VirusTotal,
    SecurityTrails,
    Shodan,
    Chaos,
    GitHub,
    Netlas,
    CrtSh,
    HackerTarget,
}

/// The kind of source a lowercase name stands for.
pub open spec fn kind_named(s: Seq<char>) -> Option<SourceKind> {
    if s == "virustotal"@ {
        Some(SourceKind::VirusTotal)
    } else if s == "securitytrails"@ {
        Some(SourceKind::SecurityTrails)
    } else if s == "shodan"@ {
        Some(SourceKind::Shodan)
    } else if s == "chaos"@ {
        Some(SourceKind::Chaos)
    } else if s == "github"@ {
        Some(SourceKind::GitHub)
    } else if s == "netlas"@ {
        Some(SourceKind::Netlas)
    } else if s == "crtsh"@ {
        Some(SourceKind::CrtSh)
    } else if s == "hackertarget"@ {
        Some(SourceKind::HackerTarget)
    } else {
        None
    }
}

/// Sources of this kind need an API key.
pub open spec fn kind_needs_key(k: SourceKind) -> bool {
    !(k == SourceKind::CrtSh || k == SourceKind::HackerTarget)
}

/// The kind of source a lowercase name stands for.
pub fn kind_of_lowercase(l: &str) -> (r: Option<SourceKind>)
    ensures
        r == kind_named(l@),
{
    if same_text(l, "virustotal") {
        Some(SourceKind::VirusTotal)
    } else if same_text(l, "securitytrails") {
        Some(SourceKind::SecurityTrails)
    } else if same_text(l, "shodan") {
        Some(SourceKind::Shodan)
    } else if same_text(l, "chaos") {
        Some(SourceKind::Chaos)
    } else if same_text(l, "github") {
        Some(SourceKind::GitHub)
    } else if same_text(l, "netlas") {
        Some(SourceKind::Netlas)
    } else if same_text(l, "crtsh") {
        Some(SourceKind::CrtSh)
    } else if same_text(l, "hackertarget") {
        Some(SourceKind::HackerTarget)
    } else {
        None
    }
}

/// The kind of source `name` stands for, letter case aside.
pub fn source_kind(name: &str) -> (r: Option<SourceKind>)
    ensures
        r == kind_named(lower_of(name@)),
{
    let l = lowercase(name);
    kind_of_lowercase(l.as_str())
}

/// Whether the source named `source_name` (letter case aside) needs an API key.
pub fn requires_api_key(source_name: &str) -> (r: bool)
    ensures
        r == (kind_named(lower_of(source_name@)) is Some && kind_needs_key(
            kind_named(lower_of(source_name@))->0,
        )),
{
    match source_kind(source_name) {
        Some(k) => !(k == SourceKind::CrtSh || k == SourceKind::HackerTarget),
        None => false,
    }
}

/// Every kind of source, in the order they are queried by default.
pub open spec fn all_kinds() -> Seq<SourceKind> {
    seq![
        SourceKind::VirusTotal,
        SourceKind::SecurityTrails,
        SourceKind::Shodan,
        SourceKind::Chaos,
        SourceKind::GitHub,
        SourceKind::Netlas,
        SourceKind::CrtSh,
        SourceKind::HackerTarget,
    ]
}

/// Every kind of source, in the order they are queried by default.
pub fn all_source_kinds() -> (r: Vec<SourceKind>)
    ensures
        r@ == all_kinds(),
{
    let r = vec![
        SourceKind::VirusTotal,
        SourceKind::SecurityTrails,
        SourceKind::Shodan,
        SourceKind::Chaos,
        SourceKind::GitHub,
        SourceKind::Netlas,
        SourceKind::CrtSh,
        SourceKind::HackerTarget,
    ];
    assert(r@ =~= all_kinds());
    r
}

/// The kinds named in `names`, in order, skipping unknown names.
pub open spec fn kinds_named(names: Seq<String>) -> Seq<SourceKind>
    decreases names.len(),
{
    if names.len() == 0 {
        Seq::empty()
    } else {
        let p = kinds_named(names.drop_last());
        match kind_named(lower_of(names.last()@)) {
            Some(k) => p.push(k),
            None => p,
        }
    }
}

/// The sources of a run: those named (unknown names are skipped), or all of
/// them when none are named. Ending with none is a configuration error.
pub fn select_sources(requested: &Option<Vec<String>>) -> (r: Result<Vec<SourceKind>, RustFinderError>)
    ensures
        match requested {
            None => r is Ok && r->Ok_0@ == all_kinds(),
            Some(names) => if kinds_named(names@).len() > 0 {
                r is Ok && r->Ok_0@ == kinds_named(names@)
            } else {
                r is Err && r->Err_0 is ConfigError
            },
        },
{
    match requested {
        None => Ok(all_source_kinds()),
        Some(names) => {
            let mut out: Vec<SourceKind> = Vec::new();
            let mut i: usize = 0;
            while i < names.len()
                invariant
                    i <= names@.len(),
                    out@ == kinds_named(names@.take(i as int)),
                decreases names@.len() - i,
            {
                assert(names@.take(i + 1).drop_last() =~= names@.take(i as int));
                match source_kind(names[i].as_str()) {
                    Some(k) => out.push(k),
                    None => {},
                }
                i += 1;
            }
            assert(names@.take(i as int) =~= names@);
            if out.len() == 0 {
                Err(RustFinderError::ConfigError(owned("no valid source configured")))
            } else {
                Ok(out)
            }
        },
    }
}

/// The API keys configured for `name`: those of its first entry, or none.
pub open spec fn keys_for(ak: Seq<(String, Vec<String>)>, name: Seq<char>) -> Seq<Seq<char>>
    decreases ak.len(),
{
    if ak.len() == 0 {
        Seq::empty()
    } else if ak[0].0@ == name {
        ak[0].1.deep_view()
    } else {
        keys_for(ak.drop_first(), name)
    }
}

/// The API keys configured for the source named `name`.
pub fn api_keys_for(config: &Config, name: &str) -> (r: Vec<String>)
    ensures
        r.deep_view() == keys_for(config.api_keys@, name@),
{
    let ak = &config.api_keys;
    let mut i: usize = 0;
    assert(ak@.skip(0) =~= ak@);
    while i < ak.len()
        invariant
            ak@ == config.api_keys@,
            i <= ak@.len(),
            keys_for(ak@, name@) == keys_for(ak@.skip(i as int), name@),
        decreases ak@.len() - i,
    {
        assert(ak@.skip(i as int)[0] == ak@[i as int]);
        assert(ak@.skip(i as int).drop_first() =~= ak@.skip(i + 1));
        if same_text(ak[i].0.as_str(), name) {
            assert(ak@[i as int].0@ == name@);
            return copy_strings(&ak[i].1);
        }
        i += 1;
    }
    assert(ak@.skip(i as int) =~= Seq::<(String, Vec<String>)>::empty());
    Vec::new()
}

/// One of `keys`, picked at random, or `None` when there are none.
fn pick_key(keys: &Vec<String>) -> (r: Option<&String>)
    ensures
        r is None <==> keys@.len() == 0,
        r is Some ==> keys@.contains(*r->0),
{
    if keys.len() == 0 {
        None
    } else {
        let i = random_below(keys.len());
        assert(keys@[i as int] == keys[i as int]);
        Some(&keys[i])
    }
}

/// The `crtsh` source.
#[derive(Clone, Debug)]
pub struct CrtShSource {
    name: String,
}

impl View for CrtShSource {
    type V = SourceView;

    closed spec fn view(&self) -> SourceView {
        SourceView { name: self.name@, api_keys: Seq::empty() }
    }
}

impl CrtShSource {
    /// The source, with no API keys.
    pub fn new() -> (r: Self)
        ensures
            r@.name == "crtsh"@,
            r@.api_keys.len() == 0,
    {
        CrtShSource { name: owned("crtsh") }
    }

    /// The name of the source.
    pub fn name(&self) -> (r: &str)
        ensures
            r@ == self@.name,
    {
        self.name.as_str()
    }

    /// What the source says about itself.
    pub fn info(&self) -> (r: SourceInfo)
        ensures
            r.name@ == self@.name,
            !r.needs_key,
            r.is_default,
    {
        SourceInfo { name: self.name.clone(), needs_key: false, is_default: true }
    }
}

/// The `chaos` source.
#[derive(Clone, Debug)]
pub struct ChaosSource {
    name: String,
    api_keys: Vec<String>,
}

impl View for ChaosSource {
    type V = SourceView;

    closed spec fn view(&self) -> SourceView {
        SourceView { name: self.name@, api_keys: self.api_keys.deep_view() }
    }
}

impl ChaosSource {
    /// The source, with no API keys.
    pub fn new() -> (r: Self)
        ensures
            r@.name == "chaos"@,
            r@.api_keys.len() == 0,
    {
        let r = ChaosSource { name: owned("chaos"), api_keys: Vec::new() };
        assert(r@.api_keys =~= Seq::<Seq<char>>::empty());
        r
    }

    /// The source with `keys` as its API keys.
    pub fn with_api_keys(self, keys: Vec<String>) -> (r: Self)
        ensures
            r@.name == self@.name,
            r@.api_keys == keys.deep_view(),
    {
        ChaosSource { name: self.name, api_keys: keys }
    }

    /// One of the API keys, picked at random, or `None` when there are none.
    pub fn get_random_api_key(&self) -> (r: Option<&String>)
        ensures
            r is None <==> self@.api_keys.len() == 0,
            r is Some ==> self@.api_keys.contains(r->0@),
    {
        let r = pick_key(&self.api_keys);
        proof {
            if r is Some {
                let j = choose|j: int| 0 <= j < self.api_keys@.len() && self.api_keys@[j] == *r->0;
                assert(self@.api_keys[j] == r->0@);
            }
        }
        r
    }

    /// The name of the source.
    pub fn name(&self) -> (r: &str)
        ensures
            r@ == self@.name,
    {
        self.name.as_str()
    }

    /// What the source says about itself.
    pub fn info(&self) -> (r: SourceInfo)
        ensures
            r.name@ == self@.name,
            r.needs_key,
            r.is_default,
    {
        SourceInfo { name: self.name.clone(), needs_key: true, is_default: true }
    }
}

/// The `github` source.
#[derive(Clone, Debug)]
pub struct GitHubSource {
    name: String,
    api_keys: Vec<String>,
}

impl View for GitHubSource {
    type V = SourceView;

    closed spec fn view(&self) -> SourceView {
        SourceView { name: self.name@, api_keys: self.api_keys.deep_view() }
    }
}

impl GitHubSource {
    /// The source, with no API keys.
    pub fn new() -> (r: Self)
        ensures
            r@.name == "github"@,
            r@.api_keys.len() == 0,
    {
        let r = GitHubSource { name: owned("github"), api_keys: Vec::new() };
        assert(r@.api_keys =~= Seq::<Seq<char>>::empty());
        r
    }

    /// The source with `keys` as its API keys.
    pub fn with_api_keys(self, keys: Vec<String>) -> (r: Self)
        ensures
            r@.name == self@.name,
            r@.api_keys == keys.deep_view(),
    {
        GitHubSource { name: self.name, api_keys: keys }
    }

    /// One of the API keys, picked at random, or `None` when there are none.
    pub fn get_random_api_key(&self) -> (r: Option<&String>)
        ensures
            r is None <==> self@.api_keys.len() == 0,
            r is Some ==> self@.api_keys.contains(r->0@),
    {
        let r = pick_key(&self.api_keys);
        proof {
            if r is Some {
                let j = choose|j: int| 0 <= j < self.api_keys@.len() && self.api_keys@[j] == *r->0;
                assert(self@.api_keys[j] == r->0@);
            }
        }
        r
    }

    /// The name of the source.
    pub fn name(&self) -> (r: &str)
        ensures
            r@ == self@.name,
    {
        self.name.as_str()
    }

    /// What the source says about itself.
    pub fn info(&self) -> (r: SourceInfo)
        ensures
            r.name@ == self@.name,
            r.needs_key,
            r.is_default,
    {
        SourceInfo { name: self.name.clone(), needs_key: true, is_default: true }
    }
}

/// The `hackertarget` source.
#[derive(Clone, Debug)]
pub struct HackerTargetSource {
    name: String,
}

impl View for HackerTargetSource {
    type V = SourceView;

    closed spec fn view(&self) -> SourceView {
        SourceView { name: self.name@, api_keys: Seq::empty() }
    }
}

impl HackerTargetSource {
    /// The source, with no API keys.
    pub fn new() -> (r: Self)
        ensures
            r@.name == "hackertarget"@,
            r@.api_keys.len() == 0,
    {
        HackerTargetSource { name: owned("hackertarget") }
    }

    /// The name of the source.
    pub fn name(&self) -> (r: &str)
        ensures
            r@ == self@.name,
    {
        self.name.as_str()
    }

    /// What the source says about itself.
    pub fn info(&self) -> (r: SourceInfo)
        ensures
            r.name@ == self@.name,
            !r.needs_key,
            r.is_default,
    {
        SourceInfo { name: self.name.clone(), needs_key: false, is_default: true }
    }
}

/// The `netlas` source.
#[derive(Clone, Debug)]
pub struct NetlasSource {
    name: String,
    api_keys: Vec<String>,
}

impl View for NetlasSource {
    type V = SourceView;

    closed spec fn view(&self) -> SourceView {
        SourceView { name: self.name@, api_keys: self.api_keys.deep_view() }
    }
}

impl NetlasSource {
    /// The source, with no API keys.
    pub fn new() -> (r: Self)
        ensures
            r@.name == "netlas"@,
            r@.api_keys.len() == 0,
    {
        let r = NetlasSource { name: owned("netlas"), api_keys: Vec::new() };
        assert(r@.api_keys =~= Seq::<Seq<char>>::empty());
        r
    }

    /// The source with `keys` as its API keys.
    pub fn with_api_keys(self, keys: Vec<String>) -> (r: Self)
        ensures
            r@.name == self@.name,
            r@.api_keys == keys.deep_view(),
    {
        NetlasSource { name: self.name, api_keys: keys }
    }

    /// One of the API keys, picked at random, or `None` when there are none.
    pub fn get_random_api_key(&self) -> (r: Option<&String>)
        ensures
            r is None <==> self@.api_keys.len() == 0,
            r is Some ==> self@.api_keys.contains(r->0@),
    {
        let r = pick_key(&self.api_keys);
        proof {
            if r is Some {
                let j = choose|j: int| 0 <= j < self.api_keys@.len() && self.api_keys@[j] == *r->0;
                assert(self@.api_keys[j] == r->0@);
            }
        }
        r
    }

    /// The name of the source.
    pub fn name(&self) -> (r: &str)
        ensures
            r@ == self@.name,
    {
        self.name.as_str()
    }

    /// What the source says about itself.
    pub fn info(&self) -> (r: SourceInfo)
        ensures
            r.name@ == self@.name,
            r.needs_key,
            r.is_default,
    {
        SourceInfo { name: self.name.clone(), needs_key: true, is_default: true }
    }
}

/// The `securitytrails` source.
#[derive(Clone, Debug)]
pub struct SecurityTrailsSource {
    name: String,
    api_keys: Vec<String>,
}

impl View for SecurityTrailsSource {
    type V = SourceView;

    closed spec fn view(&self) -> SourceView {
        SourceView { name: self.name@, api_keys: self.api_keys.deep_view() }
    }
}

impl SecurityTrailsSource {
    /// The source, with no API keys.
    pub fn new() -> (r: Self)
        ensures
            r@.name == "securitytrails"@,
            r@.api_keys.len() == 0,
    {
        let r = SecurityTrailsSource { name: owned("securitytrails"), api_keys: Vec::new() };
        assert(r@.api_keys =~= Seq::<Seq<char>>::empty());
        r
    }

    /// The source with `keys` as its API keys.
    pub fn with_api_keys(self, keys: Vec<String>) -> (r: Self)
        ensures
            r@.name == self@.name,
            r@.api_keys == keys.deep_view(),
    {
        SecurityTrailsSource { name: self.name, api_keys: keys }
    }

    /// One of the API keys, picked at random, or `None` when there are none.
    pub fn get_random_api_key(&self) -> (r: Option<&String>)
        ensures
            r is None <==> self@.api_keys.len() == 0,
            r is Some ==> self@.api_keys.contains(r->0@),
    {
        let r = pick_key(&self.api_keys);
        proof {
            if r is Some {
                let j = choose|j: int| 0 <= j < self.api_keys@.len() && self.api_keys@[j] == *r->0;
                assert(self@.api_keys[j] == r->0@);
            }
        }
        r
    }

    /// The name of the source.
    pub fn name(&self) -> (r: &str)
        ensures
            r@ == self@.name,
    {
        self.name.as_str()
    }

    /// What the source says about itself.
    pub fn info(&self) -> (r: SourceInfo)
        ensures
            r.name@ == self@.name,
            r.needs_key,
            r.is_default,
    {
        SourceInfo { name: self.name.clone(), needs_key: true, is_default: true }
    }
}

/// The `shodan` source.
#[derive(Clone, Debug)]
pub struct ShodanSource {
    name: String,
    api_keys: Vec<String>,
}

impl View for ShodanSource {
    type V = SourceView;

    closed spec fn view(&self) -> SourceView {
        SourceView { name: self.name@, api_keys: self.api_keys.deep_view() }
    }
}

impl ShodanSource {
    /// The source, with no API keys.
    pub fn new() -> (r: Self)
        ensures
            r@.name == "shodan"@,
            r@.api_keys.len() == 0,
    {
        let r = ShodanSource { name: owned("shodan"), api_keys: Vec::new() };
        assert(r@.api_keys =~= Seq::<Seq<char>>::empty());
        r
    }

    /// The source with `keys` as its API keys.
    pub fn with_api_keys(self, keys: Vec<String>) -> (r: Self)
        ensures
            r@.name == self@.name,
            r@.api_keys == keys.deep_view(),
    {
        ShodanSource { name: self.name, api_keys: keys }
    }

    /// One of the API keys, picked at random, or `None` when there are none.
    pub fn get_random_api_key(&self) -> (r: Option<&String>)
        ensures
            r is None <==> self@.api_keys.len() == 0,
            r is Some ==> self@.api_keys.contains(r->0@),
    {
        let r = pick_key(&self.api_keys);
        proof {
            if r is Some {
                let j = choose|j: int| 0 <= j < self.api_keys@.len() && self.api_keys@[j] == *r->0;
                assert(self@.api_keys[j] == r->0@);
            }
        }
        r
    }

    /// The name of the source.
    pub fn name(&self) -> (r: &str)
        ensures
            r@ == self@.name,
    {
        self.name.as_str()
    }

    /// What the source says about itself.
    pub fn info(&self) -> (r: SourceInfo)
        ensures
            r.name@ == self@.name,
            r.needs_key,
            r.is_default,
    {
        SourceInfo { name: self.name.clone(), needs_key: true, is_default: true }
    }
}

/// The `virustotal` source.
#[derive(Clone, Debug)]
pub struct VirusTotalSource {
    name: String,
    api_keys: Vec<String>,
}

impl View for VirusTotalSource {
    type V = SourceView;

    closed spec fn view(&self) -> SourceView {
        SourceView { name: self.name@, api_keys: self.api_keys.deep_view() }
    }
}

impl VirusTotalSource {
    /// The source, with no API keys.
    pub fn new() -> (r: Self)
        ensures
            r@.name == "virustotal"@,
            r@.api_keys.len() == 0,
    {
        let r = VirusTotalSource { name: owned("virustotal"), api_keys: Vec::new() };
        assert(r@.api_keys =~= Seq::<Seq<char>>::empty());
        r
    }

    /// The source with `keys` as its API keys.
    pub fn with_api_keys(self, keys: Vec<String>) -> (r: Self)
        ensures
            r@.name == self@.name,
            r@.api_keys == keys.deep_view(),
    {
        VirusTotalSource { name: self.name, api_keys: keys }
    }

    /// One of the API keys, picked at random, or `None` when there are none.
    pub fn get_random_api_key(&self) -> (r: Option<&String>)
        ensures
            r is None <==> self@.api_keys.len() == 0,
            r is Some ==> self@.api_keys.contains(r->0@),
    {
        let r = pick_key(&self.api_keys);
        proof {
            if r is Some {
                let j = choose|j: int| 0 <= j < self.api_keys@.len() && self.api_keys@[j] == *r->0;
                assert(self@.api_keys[j] == r->0@);
            }
        }
        r
    }

    /// The name of the source.
    pub fn name(&self) -> (r: &str)
        ensures
            r@ == self@.name,
    {
        self.name.as_str()
    }

    /// What the source says about itself.
    pub fn info(&self) -> (r: SourceInfo)
        ensures
            r.name@ == self@.name,
            r.needs_key,
            r.is_default,
    {
        SourceInfo { name: self.name.clone(), needs_key: true, is_default: true }
    }
}

/// How a source is shown in the listing: its name, with ` *` where it needs
/// an API key.
pub open spec fn listed_name(info: SourceInfo) -> Seq<char> {
    if info.needs_key { info.name@ + " *"@ } else { info.name@ }
}

/// The listed names of the sources in group `group`, in order.
pub open spec fn listed(infos: Seq<SourceInfo>, group: nat) -> Seq<Seq<char>>
    decreases infos.len(),
{
    if infos.len() == 0 {
        Seq::empty()
    } else {
        let p = listed(infos.drop_last(), group);
        if group_of(infos.last()) == group {
            p.push(listed_name(infos.last()))
        } else {
            p
        }
    }
}

/// The group a source is listed in: 0 for default sources without a key, 1
/// for default sources with one, 2 for the others.
pub open spec fn group_of(info: SourceInfo) -> nat {
    if info.is_default {
        if info.needs_key { 1 } else { 0 }
    } else {
        2
    }
}

/// The source listing, in three groups.
pub struct SourceListing {
    pub default_sources: Vec<String>,
    pub api_sources: Vec<String>,
    pub additional_sources: Vec<String>,
}

/// Sorts the sources into the groups of the listing, keeping their order.
pub fn source_listing(infos: &Vec<SourceInfo>) -> (r: SourceListing)
    ensures
        r.default_sources.deep_view() == listed(infos@, 0),
        r.api_sources.deep_view() == listed(infos@, 1),
        r.additional_sources.deep_view() == listed(infos@, 2),
{
    let mut d: Vec<String> = Vec::new();
    let mut a: Vec<String> = Vec::new();
    let mut x: Vec<String> = Vec::new();
    let mut i: usize = 0;
    while i < infos.len()
        invariant
            i <= infos@.len(),
            d.deep_view() == listed(infos@.take(i as int), 0),
            a.deep_view() == listed(infos@.take(i as int), 1),
            x.deep_view() == listed(infos@.take(i as int), 2),
        decreases infos@.len() - i,
    {
        let ghost t = infos@.take(i + 1);
        assert(t.drop_last() =~= infos@.take(i as int));
        let info = &infos[i];
        let mut shown = info.name.clone();
        if info.needs_key {
            push_str_chars(&mut shown, " *");
        }
        assert(shown@ =~= listed_name(*info));
        if info.is_default {
            if info.needs_key {
                a.push(shown);
            } else {
                d.push(shown);
            }
        } else {
            x.push(shown);
        }
        assert(d.deep_view() =~= listed(t, 0));
        assert(a.deep_view() =~= listed(t, 1));
        assert(x.deep_view() =~= listed(t, 2));
        i += 1;
    }
    assert(infos@.take(i as int) =~= infos@);
    SourceListing { default_sources: d, api_sources: a, additional_sources: x }
}

} // verus!
