//! The rules of robots.txt: where it lies, what a reply to it means, and what it disallows.
//!
//! This is for a fetcher that is sent to a page, not for a crawler: a robots.txt that is there is
//! obeyed, and one that is missing, broken or out of reach blocks nothing.

use vstd::prelude::*;

use crate::error;
use crate::error::Error;
use crate::fetch;
use crate::table::Table;
use crate::text;
use crate::weburl;
use crate::weburl::{WebUrl, WebUrlModel};

verus! {

/// How many bytes of a robots.txt are read.
pub const MAX_ROBOTS_BYTES: usize = 524_288;

/// Whether the rules of a robots.txt let an agent fetch a URL; nothing where the text is no
/// robots.txt.
pub uninterp spec fn verdict(agent: Seq<char>, body: Seq<u8>, url: Seq<char>) -> Option<bool>;

/// `texting_robots`'s `Robot::new` and `Robot::allowed`. The result is a function of the
/// arguments.
#[verifier::external_body]
fn judge(agent: &str, body: &[u8], url: &str) -> (r: Option<bool>)
    ensures
        r == verdict(agent@, body@, url@),
{
    match texting_robots::Robot::new(agent, body) {
        Ok(robot) => Some(robot.allowed(url)),
        Err(_) => None,
    }
}

/// The rules for one origin.
#[derive(Debug)]
pub enum Decision {
    /// Nothing is disallowed.
    AllowAll,
    /// The robots.txt of the origin decides, for that agent.
    Rules { agent: String, body: Vec<u8> },
}

/// The rules for one origin, as a mathematical value.
pub enum DecisionModel {
    AllowAll,
    Rules { agent: Seq<char>, body: Seq<u8> },
}

impl DeepView for Decision {
    type V = DecisionModel;

    open spec fn deep_view(&self) -> DecisionModel {
        match self {
            Decision::AllowAll => DecisionModel::AllowAll,
            Decision::Rules { agent, body } => DecisionModel::Rules { agent: agent@, body: body@ },
        }
    }
}

/// The rules let the URL be fetched. A text that is no robots.txt disallows nothing.
pub open spec fn allows_url(d: DecisionModel, url: Seq<char>) -> bool {
    match d {
        DecisionModel::AllowAll => true,
        DecisionModel::Rules { agent, body } => verdict(agent, body, url) != Some(false),
    }
}

impl Decision {
    /// Whether the rules let the URL be fetched.
    pub fn allows(&self, url: &str) -> (r: bool)
        ensures
            r == allows_url(self.deep_view(), url@),
    {
        match self {
            Decision::AllowAll => true,
            Decision::Rules { agent, body } => match judge(agent.as_str(), body.as_slice(), url) {
                Some(allowed) => allowed,
                None => true,
            },
        }
    }
}

/// What came back for a robots.txt.
#[derive(Debug)]
pub enum RobotsReply {
    /// A response with that status and the body.
    Response { status: u16, body: Vec<u8> },
    /// No response.
    Failed,
}

/// The rules that a reply means: those of its body where it is a success, and none otherwise.
pub open spec fn decision_of(reply: RobotsReply, agent: Seq<char>) -> DecisionModel {
    match reply {
        RobotsReply::Response { status, body } => if 200 <= status <= 299 {
            DecisionModel::Rules { agent, body: body@ }
        } else {
            DecisionModel::AllowAll
        },
        RobotsReply::Failed => DecisionModel::AllowAll,
    }
}

/// Turns a reply into rules.
pub fn decide(reply: RobotsReply, agent: &str) -> (r: Decision)
    ensures
        r.deep_view() == decision_of(reply, agent@),
{
    match reply {
        RobotsReply::Response { status, body } => if 200 <= status && status <= 299 {
            Decision::Rules { agent: agent.to_string(), body }
        } else {
            Decision::AllowAll
        },
        RobotsReply::Failed => Decision::AllowAll,
    }
}

/// Where the robots.txt for a URL lies: at the root of its origin; nothing for a URL without a
/// host or not of the web.
pub open spec fn robots_url_of(url: WebUrlModel) -> Option<Seq<char>> {
    if url.host is None || !weburl::is_web(url.href) {
        None
    } else {
        Some(weburl::origin_of(url.href) + "/robots.txt"@)
    }
}

/// Where the robots.txt for a URL lies. A user name or a password of the URL is not in it.
pub fn robots_url_for(url: &WebUrl) -> (r: Option<String>)
    ensures
        r.deep_view() == robots_url_of(url.deep_view()),
        r matches Some(place) ==> forall|i: int| 0 <= i < place@.len() ==> place@[i] != '@',
{
    if url.host.is_none() || !weburl::is_web_url(url.href.as_str()) {
        return None;
    }
    proof {
        reveal_strlit("/robots.txt");
    }
    let at = weburl::origin(url.href.as_str());
    let place = text::concat(at.as_str(), "/robots.txt");
    assert forall|i: int| 0 <= i < place@.len() implies place@[i] != '@' by {
        if i < at@.len() {
            assert(place@[i] == at@[i]);
        } else {
            assert(place@[i] == "/robots.txt"@[i - at@.len()]);
        }
    }
    Some(place)
}

/// The rules that are known, by origin.
#[derive(Debug)]
pub struct RobotsCache {
    origins: Table<Decision>,
}

/// How a URL stands.
#[derive(Debug)]
pub enum Lookup {
    /// The rules for its origin are known, and say that.
    Known { allowed: bool },
    /// They are not known yet, and lie there.
    Fetch { robots_url: String },
    /// They are not known yet, and there is nowhere to get them from.
    Nowhere,
}

impl RobotsCache {
    /// The known rules, by origin.
    pub closed spec fn known(self) -> Map<Seq<char>, DecisionModel> {
        self.origins.entries().map_values(|d: Decision| d.deep_view())
    }

    /// No origin is there twice.
    pub closed spec fn valid(self) -> bool {
        self.origins.valid()
    }

    /// No rules are known.
    pub fn new() -> (r: RobotsCache)
        ensures
            r.valid(),
            r.known() == Map::<Seq<char>, DecisionModel>::empty(),
    {
        let r = RobotsCache { origins: Table::new() };
        assert(r.known() =~= Map::<Seq<char>, DecisionModel>::empty());
        r
    }

    /// The rules for an origin, where they are known.
    pub fn cached(&self, origin: &str) -> (r: Option<&Decision>)
        requires
            self.valid(),
        ensures
            match r {
                Some(d) => self.known().dom().contains(origin@) && self.known()[origin@]
                    == d.deep_view(),
                None => !self.known().dom().contains(origin@),
            },
    {
        self.origins.get(origin)
    }

    /// Remembers the rules for an origin, in place of earlier ones.
    pub fn store(&mut self, origin: String, decision: Decision)
        requires
            old(self).valid(),
        ensures
            final(self).valid(),
            final(self).known() == old(self).known().insert(origin@, decision.deep_view()),
    {
        let ghost before = self.known();
        self.origins.insert(origin, decision);
        assert(self.known() =~= before.insert(origin@, decision.deep_view()));
    }

    /// Finds out how a URL stands: by the rules for its origin where they are known, and
    /// otherwise where to get them from. Their place is checked like every URL.
    pub fn look_up(&self, url: &WebUrl, allow_local: bool) -> (r: Lookup)
        requires
            self.valid(),
        ensures
            ({
                let origin = weburl::origin_of(url.href@);
                if self.known().dom().contains(origin) {
                    r matches Lookup::Known { allowed } && allowed == allows_url(
                        self.known()[origin],
                        url.href@,
                    )
                } else {
                    match robots_url_of(url.deep_view()) {
                        Some(place) => if fetch::checked(place, allow_local) is Ok {
                            r matches Lookup::Fetch { robots_url } && robots_url@ == place
                        } else {
                            r is Nowhere
                        },
                        None => r is Nowhere,
                    }
                }
            }),
    {
        let at = weburl::origin(url.href.as_str());
        if let Some(d) = self.cached(at.as_str()) {
            return Lookup::Known { allowed: d.allows(url.href.as_str()) };
        }
        match robots_url_for(url) {
            Some(robots_url) => match fetch::validate_cached_url(robots_url.as_str(), allow_local) {
                Ok(_) => Lookup::Fetch { robots_url },
                Err(_) => Lookup::Nowhere,
            },
            None => Lookup::Nowhere,
        }
    }

    /// Remembers what a reply means for the origin of a URL, and says whether the URL may be
    /// fetched.
    pub fn learn(&mut self, url: &WebUrl, reply: RobotsReply, agent: &str) -> (allowed: bool)
        requires
            old(self).valid(),
        ensures
            final(self).valid(),
            final(self).known() == old(self).known().insert(
                weburl::origin_of(url.href@),
                decision_of(reply, agent@),
            ),
            allowed == allows_url(decision_of(reply, agent@), url.href@),
    {
        let decision = decide(reply, agent);
        let allowed = decision.allows(url.href.as_str());
        self.store(weburl::origin(url.href.as_str()), decision);
        allowed
    }
}

/// The refusal of a URL that robots.txt disallows.
pub fn enforce(respect_robots: bool, allowed: bool, url: &WebUrl) -> (r: Result<(), Error>)
    ensures
        r is Ok <==> !respect_robots || allowed,
        r matches Err(e) ==> e.deep_view() == (error::ErrorModel::Robots { url: url.href@ }),
{
    if respect_robots && !allowed {
        Err(Error::Robots { url: url.href.clone() })
    } else {
        Ok(())
    }
}

// ---------------------------------------------------------------------------------------------
// Laws
// ---------------------------------------------------------------------------------------------

/// A robots.txt that is missing, refused or out of reach blocks nothing.
pub proof fn law_failures_block_nothing(reply: RobotsReply, agent: Seq<char>, url: Seq<char>)
    requires
        reply matches RobotsReply::Response { status, .. } ==> !(200 <= status <= 299),
    ensures
        allows_url(decision_of(reply, agent), url),
{
}

/// A text that is no robots.txt blocks nothing.
pub proof fn law_broken_rules_block_nothing(agent: Seq<char>, body: Seq<u8>, url: Seq<char>)
    requires
        verdict(agent, body, url) is None,
    ensures
        allows_url(DecisionModel::Rules { agent, body }, url),
{
}

/// A robots.txt that is there is obeyed: what it disallows for the agent is refused, and what it
/// allows is not.
pub proof fn law_rules_that_are_there_are_obeyed(
    status: u16,
    body: Vec<u8>,
    agent: Seq<char>,
    url: Seq<char>,
)
    requires
        200 <= status <= 299,
    ensures
        decision_of(RobotsReply::Response { status, body }, agent) == (DecisionModel::Rules {
            agent,
            body: body@,
        }),
        verdict(agent, body@, url) == Some(false) ==> !allows_url(
            decision_of(RobotsReply::Response { status, body }, agent),
            url,
        ),
        verdict(agent, body@, url) == Some(true) ==> allows_url(
            decision_of(RobotsReply::Response { status, body }, agent),
            url,
        ),
        allows_url(DecisionModel::AllowAll, url),
{
}

/// The robots.txt of a URL of the web lies at the root of its origin.
pub proof fn law_robots_lie_at_the_root(url: WebUrlModel)
    ensures
        url.host is None ==> robots_url_of(url) is None,
        weburl::parsed(url.href) is Err ==> robots_url_of(url) is None,
        url.host is Some && (weburl::parsed(url.href) matches Ok(parts) && (parts.scheme == "http"@
            || parts.scheme == "https"@)) ==> robots_url_of(url) == Some(
            weburl::written_origin(url.href) + "/robots.txt"@,
        ),
{
}

/// Half a mebibyte of a robots.txt is read.
pub proof fn law_a_long_robots_file_is_cut()
    ensures
        MAX_ROBOTS_BYTES == 512 * 1024,
{
}

} // verus!
