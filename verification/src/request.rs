//! A whole fetch: robots.txt, politeness, redirects and retries, one step after the other.

use vstd::prelude::*;

use crate::error;
use crate::error::{Error, ErrorModel};
use crate::fetch;
use crate::fetch::{
    Attempt, AttemptModel, FetchOptions, Hop, HopModel, HopStep, HopStepModel, Location,
    LocationModel, PostStep, PostStepModel, Tried,
};
use crate::span::Span;
use crate::text;
use crate::weburl;

verus! {

/// Where a fetch stands.
#[derive(Debug)]
pub struct Job {
    /// The URL that was asked for.
    pub url: String,
    /// Where every try begins.
    pub start: String,
    /// The request to make now.
    pub hop: Hop,
    /// The tries before this one.
    pub attempt: usize,
    /// How many tries may be added to the first.
    pub retries: usize,
    /// The form to send along.
    pub form: Option<Vec<(String, String)>>,
}

/// Where a fetch stands, as a mathematical value.
#[verifier::ext_equal]
pub struct JobModel {
    pub url: Seq<char>,
    pub start: Seq<char>,
    pub hop: HopModel,
    pub attempt: usize,
    pub retries: usize,
    pub form: Option<Seq<(Seq<char>, Seq<char>)>>,
}

impl DeepView for Job {
    type V = JobModel;

    open spec fn deep_view(&self) -> JobModel {
        JobModel {
            url: self.url@,
            start: self.start@,
            hop: self.hop.deep_view(),
            attempt: self.attempt,
            retries: self.retries,
            form: self.form.deep_view(),
        }
    }
}

/// What stands before the body of a response.
#[derive(Debug)]
pub struct Head {
    pub status: u16,
    pub location: Location,
    pub final_url: String,
    pub content_type: Option<String>,
    pub retry_after: Option<String>,
}

/// What stands before the body of a response, as a mathematical value.
#[verifier::ext_equal]
pub struct HeadModel {
    pub status: u16,
    pub location: LocationModel,
    pub final_url: Seq<char>,
    pub content_type: Option<Seq<char>>,
    pub retry_after: Option<Seq<char>>,
}

impl DeepView for Head {
    type V = HeadModel;

    open spec fn deep_view(&self) -> HeadModel {
        HeadModel {
            status: self.status,
            location: self.location.deep_view(),
            final_url: self.final_url@,
            content_type: self.content_type.deep_view(),
            retry_after: self.retry_after.deep_view(),
        }
    }
}

/// What a fetch is waiting for.
#[derive(Debug)]
pub enum Stage {
    /// The verdict of robots.txt on the next request.
    Robots { job: Job },
    /// Its turn at the host.
    Gate { job: Job },
    /// The head of the response.
    Sending { job: Job },
    /// The body of the response.
    Reading { job: Job, head: Head },
    /// The end of a pause before another try.
    Waiting { job: Job },
}

/// What a fetch is waiting for, as a mathematical value.
pub enum StageModel {
    Robots { job: JobModel },
    Gate { job: JobModel },
    Sending { job: JobModel },
    Reading { job: JobModel, head: HeadModel },
    Waiting { job: JobModel },
}

impl DeepView for Stage {
    type V = StageModel;

    open spec fn deep_view(&self) -> StageModel {
        match self {
            Stage::Robots { job } => StageModel::Robots {
                job: job.deep_view(),
            },
            Stage::Gate { job } => StageModel::Gate {
                job: job.deep_view(),
            },
            Stage::Sending { job } => StageModel::Sending {
                job: job.deep_view(),
            },
            Stage::Reading { job, head } => StageModel::Reading {
                job: job.deep_view(),
                head: head.deep_view(),
            },
            Stage::Waiting { job } => StageModel::Waiting {
                job: job.deep_view(),
            },
        }
    }
}

/// What a fetch asks for.
#[derive(Debug)]
pub enum Need {
    /// Ask robots.txt about a URL.
    CheckRobots { url: String },
    /// Wait for a turn at a host. It lasts until the next question to robots.txt or the end.
    Enter { host: String },
    /// Request a URL, by `POST` where there is a form.
    Send { url: String, form: Option<Vec<(String, String)>> },
    /// Read that many bytes of the body.
    ReadBody { max_bytes: usize },
    /// Wait.
    Pause { wait: Span },
}

/// What a fetch asks for, as a mathematical value.
pub enum NeedModel {
    CheckRobots { url: Seq<char> },
    Enter { host: Seq<char> },
    Send { url: Seq<char>, form: Option<Seq<(Seq<char>, Seq<char>)>> },
    ReadBody { max_bytes: usize },
    Pause { wait: Span },
}

impl DeepView for Need {
    type V = NeedModel;

    open spec fn deep_view(&self) -> NeedModel {
        match self {
            Need::CheckRobots { url } => NeedModel::CheckRobots {
                url: url@,
            },
            Need::Enter { host } => NeedModel::Enter {
                host: host@,
            },
            Need::Send { url, form } => NeedModel::Send {
                url: url@,
                form: form.deep_view(),
            },
            Need::ReadBody { max_bytes } => NeedModel::ReadBody {
                max_bytes: *max_bytes,
            },
            Need::Pause { wait } => NeedModel::Pause {
                wait: *wait,
            },
        }
    }
}

/// What came back for a fetch.
#[derive(Debug)]
pub enum Reply {
    /// Why robots.txt refuses; nothing where it does not.
    Robots { refusal: Option<Error> },
    Entered,
    Responded { result: Result<Head, Error> },
    Body { result: Result<Vec<u8>, Error> },
    Waited,
}

/// What came back for a fetch, as a mathematical value.
pub enum ReplyModel {
    Robots { refusal: Option<ErrorModel> },
    Entered,
    Responded { result: Result<HeadModel, ErrorModel> },
    Body { result: Result<Seq<u8>, ErrorModel> },
    Waited,
}

impl DeepView for Reply {
    type V = ReplyModel;

    open spec fn deep_view(&self) -> ReplyModel {
        match self {
            Reply::Robots { refusal } => ReplyModel::Robots {
                refusal: refusal.deep_view(),
            },
            Reply::Entered => ReplyModel::Entered,
            Reply::Responded { result } => ReplyModel::Responded {
                result: error::outcome(*result),
            },
            Reply::Body { result } => ReplyModel::Body {
                result: error::outcome(*result),
            },
            Reply::Waited => ReplyModel::Waited,
        }
    }
}

/// How a fetch goes on.
#[derive(Debug)]
pub enum Step {
    Ask { stage: Stage, need: Need },
    Done { result: Result<Attempt, Error> },
}

/// How a fetch goes on, as a mathematical value.
pub enum StepModel {
    Ask { stage: StageModel, need: NeedModel },
    Done { result: Result<AttemptModel, ErrorModel> },
}

impl DeepView for Step {
    type V = StepModel;

    open spec fn deep_view(&self) -> StepModel {
        match self {
            Step::Ask { stage, need } => StepModel::Ask {
                stage: stage.deep_view(),
                need: need.deep_view(),
            },
            Step::Done { result } => StepModel::Done {
                result: error::outcome(*result),
            },
        }
    }
}

// ---------------------------------------------------------------------------------------------
// Rules
// ---------------------------------------------------------------------------------------------

/// The fetch asks robots.txt about its next request.
pub open spec fn asks_robots(job: JobModel) -> StepModel {
    StepModel::Ask {
        stage: StageModel::Robots { job },
        need: NeedModel::CheckRobots { url: job.hop.url },
    }
}

/// How a fetch begins; `form` is what it sends, if anything. A form is never sent again for a
/// failure.
pub open spec fn first_step(
    url: Seq<char>,
    form: Option<Seq<(Seq<char>, Seq<char>)>>,
    opts: FetchOptions,
) -> StepModel {
    match fetch::checked(url, opts.allow_local) {
        Err(e) => StepModel::Done { result: Err(e) },
        Ok(parts) => asks_robots(
            JobModel {
                url,
                start: parts.href,
                hop: HopModel { url: parts.href, count: 0 },
                attempt: 0,
                retries: if form is Some {
                    0
                } else {
                    opts.max_retries
                },
                form,
            },
        ),
    }
}

/// The fetch waits, and then begins another try.
pub open spec fn pauses(job: JobModel, wait: Span) -> StepModel {
    StepModel::Ask {
        stage: StageModel::Waiting {
            job: JobModel {
                hop: HopModel { url: job.start, count: 0 },
                attempt: (job.attempt + 1) as usize,
                ..job
            },
        },
        need: NeedModel::Pause { wait },
    }
}

/// How a fetch goes on with an error: another try where the error may pass and one is left.
pub open spec fn failed(job: JobModel, e: ErrorModel, nanos: u32) -> StepModel {
    match fetch::retry_delay(
        job.attempt,
        job.retries,
        Tried::Error { transient: e.may_pass() },
        nanos,
    ) {
        Some(wait) => pauses(job, wait),
        None => StepModel::Done { result: Err(e) },
    }
}

/// How a fetch goes on with a page: another try where its status may pass and one is left.
pub open spec fn finished(job: JobModel, a: AttemptModel, nanos: u32) -> StepModel {
    match fetch::retry_delay(
        job.attempt,
        job.retries,
        Tried::Response { status: a.res.status, retry_after: a.retry_after },
        nanos,
    ) {
        Some(wait) => pauses(job, wait),
        None => StepModel::Done { result: Ok(a) },
    }
}

/// The key of the host that a URL leads to.
pub open spec fn host_of(url: Seq<char>) -> Seq<char> {
    match weburl::parsed(url) {
        Ok(parts) => fetch::host_key_of(parts),
        Err(_) => seq![],
    }
}

/// The fetch reads the page.
pub open spec fn reads(job: JobModel, head: HeadModel, opts: FetchOptions) -> StepModel {
    StepModel::Ask {
        stage: StageModel::Reading { job, head },
        need: NeedModel::ReadBody { max_bytes: opts.max_bytes },
    }
}

/// How a fetch goes on with the head of a response.
pub open spec fn responded(
    job: JobModel,
    head: HeadModel,
    nanos: u32,
    opts: FetchOptions,
) -> StepModel {
    if job.form is Some {
        match fetch::post_step(
            job.url,
            job.hop,
            head.status,
            head.location,
            head.final_url,
            opts.max_redirects,
            opts.allow_local,
        ) {
            PostStepModel::Resend(hop) => asks_robots(JobModel { hop, ..job }),
            PostStepModel::Follow(hop) => asks_robots(JobModel { hop, form: None, ..job }),
            PostStepModel::Accept => reads(job, head, opts),
            PostStepModel::Fail(e) => failed(job, e, nanos),
        }
    } else {
        match fetch::hop_step(
            job.url,
            job.hop,
            head.status,
            head.location,
            head.final_url,
            opts.max_redirects,
            opts.allow_local,
        ) {
            HopStepModel::Follow(hop) => asks_robots(JobModel { hop, ..job }),
            HopStepModel::Accept => reads(job, head, opts),
            HopStepModel::Fail(e) => failed(job, e, nanos),
        }
    }
}

/// How a fetch goes on with a body: no more of it is used than was asked for.
pub open spec fn received(
    job: JobModel,
    head: HeadModel,
    body: Seq<u8>,
    nanos: u32,
    opts: FetchOptions,
) -> StepModel {
    let bytes = fetch::capped(body, opts.max_bytes);
    if bytes.len() > usize::MAX / 8 {
        StepModel::Done { result: Err(ErrorModel::DocumentTooLarge) }
    } else {
        finished(
            job,
            fetch::attempt_of(
                head.final_url,
                head.status,
                head.content_type,
                head.retry_after,
                bytes,
            ),
            nanos,
        )
    }
}

/// How a fetch goes on with a reply.
pub open spec fn next_step(
    stage: StageModel,
    reply: ReplyModel,
    nanos: u32,
    opts: FetchOptions,
) -> StepModel {
    match (stage, reply) {
        (StageModel::Robots { job }, ReplyModel::Robots { refusal }) => match refusal {
            Some(e) => failed(job, e, nanos),
            None => StepModel::Ask {
                stage: StageModel::Gate { job },
                need: NeedModel::Enter { host: host_of(job.hop.url) },
            },
        },
        (StageModel::Gate { job }, ReplyModel::Entered) => StepModel::Ask {
            stage: StageModel::Sending { job },
            need: NeedModel::Send { url: job.hop.url, form: job.form },
        },
        (StageModel::Sending { job }, ReplyModel::Responded { result }) => match result {
            Ok(head) => responded(job, head, nanos, opts),
            Err(e) => failed(job, e, nanos),
        },
        (StageModel::Reading { job, head }, ReplyModel::Body { result }) => match result {
            Ok(bytes) => received(job, head, bytes, nanos, opts),
            Err(e) => failed(job, e, nanos),
        },
        (StageModel::Waiting { job }, ReplyModel::Waited) => asks_robots(job),
        _ => StepModel::Done { result: Err(ErrorModel::OutOfTurn) },
    }
}

fn copy_form(form: &Option<Vec<(String, String)>>) -> (r: Option<Vec<(String, String)>>)
    ensures
        r.deep_view() == form.deep_view(),
{
    match form {
        Some(fields) => {
            let mut out: Vec<(String, String)> = Vec::new();
            for i in 0..fields.len()
                invariant
                    out@.len() == i,
                    forall|j: int| 0 <= j < i ==> out@[j].deep_view() == fields@[j].deep_view(),
            {
                out.push((fields[i].0.clone(), fields[i].1.clone()));
            }
            assert(out.deep_view() =~= fields.deep_view());
            Some(out)
        },
        None => None,
    }
}

fn ask_robots(job: Job) -> (r: Step)
    ensures
        r.deep_view() == asks_robots(job.deep_view()),
{
    let url = job.hop.url.clone();
    Step::Ask { stage: Stage::Robots { job }, need: Need::CheckRobots { url } }
}

fn start(url: &str, form: Option<Vec<(String, String)>>, opts: &FetchOptions) -> (r: Step)
    ensures
        r.deep_view() == first_step(url@, form.deep_view(), *opts),
{
    match fetch::start_hops(url, opts.allow_local) {
        Err(e) => Step::Done { result: Err(e) },
        Ok(hop) => {
            let retries: usize = if form.is_some() {
                0
            } else {
                opts.max_retries
            };
            ask_robots(
                Job {
                    url: url.to_string(),
                    start: hop.url.clone(),
                    hop,
                    attempt: 0,
                    retries,
                    form,
                },
            )
        },
    }
}

/// Begins to fetch a URL.
pub fn begin(url: &str, opts: &FetchOptions) -> (r: Step)
    ensures
        r.deep_view() == first_step(url@, None, *opts),
{
    start(url, None, opts)
}

/// Begins to send a form to a URL. It is tried once.
pub fn begin_form(url: &str, fields: Vec<(String, String)>, opts: &FetchOptions) -> (r: Step)
    ensures
        r.deep_view() == first_step(url@, Some(fields.deep_view()), *opts),
{
    start(url, Some(fields), opts)
}

fn pause(job: Job, wait: Span) -> (r: Step)
    requires
        job.attempt < usize::MAX,
    ensures
        r.deep_view() == pauses(job.deep_view(), wait),
{
    let hop = Hop { url: job.start.clone(), count: 0 };
    let attempt: usize = job.attempt + 1;
    Step::Ask {
        stage: Stage::Waiting {
            job: Job {
                url: job.url,
                start: job.start,
                hop,
                attempt,
                retries: job.retries,
                form: job.form,
            },
        },
        need: Need::Pause { wait },
    }
}

fn fail(job: Job, e: Error, nanos: u32) -> (r: Step)
    ensures
        r.deep_view() == failed(job.deep_view(), e.deep_view(), nanos),
{
    let tried = Tried::Error { transient: e.may_pass() };
    match fetch::next_retry(job.attempt, job.retries, &tried, nanos) {
        Some(wait) => pause(job, wait),
        None => Step::Done { result: Err(e) },
    }
}

fn finish(job: Job, a: Attempt, nanos: u32) -> (r: Step)
    ensures
        r.deep_view() == finished(job.deep_view(), a.deep_view(), nanos),
{
    let tried = Tried::Response { status: a.res.status, retry_after: a.retry_after };
    match fetch::next_retry(job.attempt, job.retries, &tried, nanos) {
        Some(wait) => pause(job, wait),
        None => Step::Done { result: Ok(a) },
    }
}

fn read(job: Job, head: Head, opts: &FetchOptions) -> (r: Step)
    ensures
        r.deep_view() == reads(job.deep_view(), head.deep_view(), *opts),
{
    Step::Ask {
        stage: Stage::Reading { job, head },
        need: Need::ReadBody { max_bytes: opts.max_bytes },
    }
}

fn go_on(job: Job, hop: Hop, with_form: bool) -> (r: Step)
    ensures
        r.deep_view() == asks_robots(
            JobModel {
                hop: hop.deep_view(),
                form: if with_form {
                    job.deep_view().form
                } else {
                    None
                },
                ..job.deep_view()
            },
        ),
{
    let form = if with_form {
        job.form
    } else {
        None
    };
    ask_robots(
        Job {
            url: job.url,
            start: job.start,
            hop,
            attempt: job.attempt,
            retries: job.retries,
            form,
        },
    )
}

fn respond(job: Job, head: Head, nanos: u32, opts: &FetchOptions) -> (r: Step)
    ensures
        r.deep_view() == responded(job.deep_view(), head.deep_view(), nanos, *opts),
{
    if job.form.is_some() {
        match fetch::next_post_hop(
            job.url.as_str(),
            &job.hop,
            head.status,
            &head.location,
            head.final_url.as_str(),
            opts,
        ) {
            PostStep::Resend(hop) => go_on(job, hop, true),
            PostStep::Follow(hop) => go_on(job, hop, false),
            PostStep::Accept => read(job, head, opts),
            PostStep::Fail(e) => fail(job, e, nanos),
        }
    } else {
        match fetch::next_hop(
            job.url.as_str(),
            &job.hop,
            head.status,
            &head.location,
            head.final_url.as_str(),
            opts,
        ) {
            HopStep::Follow(hop) => go_on(job, hop, true),
            HopStep::Accept => read(job, head, opts),
            HopStep::Fail(e) => fail(job, e, nanos),
        }
    }
}

fn as_text(o: &Option<String>) -> (r: Option<&str>)
    ensures
        text::opt(r) == o.deep_view(),
{
    match o {
        Some(s) => Some(s.as_str()),
        None => None,
    }
}

fn receive(job: Job, head: Head, body: Vec<u8>, nanos: u32, opts: &FetchOptions) -> (r: Step)
    ensures
        r.deep_view() == received(job.deep_view(), head.deep_view(), body@, nanos, *opts),
{
    let n: usize = if body.len() < opts.max_bytes {
        body.len()
    } else {
        opts.max_bytes
    };
    let bytes = vstd::slice::slice_subrange(body.as_slice(), 0, n);
    assert(bytes@ =~= fetch::capped(body@, opts.max_bytes));
    if bytes.len() > usize::MAX / 8 {
        return Step::Done { result: Err(Error::DocumentTooLarge) };
    }
    let a = fetch::finish_attempt(
        head.final_url.as_str(),
        head.status,
        as_text(&head.content_type),
        as_text(&head.retry_after),
        bytes,
    );
    finish(job, a, nanos)
}

/// Goes on with a fetch when the reply is there. `nanos` are those of a clock.
pub fn advance(stage: Stage, reply: Reply, nanos: u32, opts: &FetchOptions) -> (r: Step)
    ensures
        r.deep_view() == next_step(stage.deep_view(), reply.deep_view(), nanos, *opts),
{
    match (stage, reply) {
        (Stage::Robots { job }, Reply::Robots { refusal }) => match refusal {
            Some(e) => fail(job, e, nanos),
            None => {
                let host = match fetch::parse(job.hop.url.as_str()) {
                    Some(parts) => fetch::host_key(&parts),
                    None => String::new(),
                };
                Step::Ask { stage: Stage::Gate { job }, need: Need::Enter { host } }
            },
        },
        (Stage::Gate { job }, Reply::Entered) => {
            let url = job.hop.url.clone();
            let form = copy_form(&job.form);
            Step::Ask { stage: Stage::Sending { job }, need: Need::Send { url, form } }
        },
        (Stage::Sending { job }, Reply::Responded { result }) => match result {
            Ok(head) => respond(job, head, nanos, opts),
            Err(e) => fail(job, e, nanos),
        },
        (Stage::Reading { job, head }, Reply::Body { result }) => match result {
            Ok(bytes) => {
                assert(bytes.deep_view() =~= bytes@);
                receive(job, head, bytes, nanos, opts)
            },
            Err(e) => fail(job, e, nanos),
        },
        (Stage::Waiting { job }, Reply::Waited) => ask_robots(job),
        _ => Step::Done { result: Err(Error::OutOfTurn) },
    }
}

// ---------------------------------------------------------------------------------------------
// Laws
// ---------------------------------------------------------------------------------------------

/// The URL may be fetched, or is the normal form of one that may be.
pub open spec fn permitted(href: Seq<char>, allow_local: bool) -> bool {
    ||| fetch::checked(href, allow_local) is Ok
    ||| exists|url: Seq<char>|
        #[trigger] fetch::checked(url, allow_local) matches Ok(parts) && parts.href == href
}

/// The job of a stage.
pub open spec fn job_of(stage: StageModel) -> JobModel {
    match stage {
        StageModel::Robots { job } => job,
        StageModel::Gate { job } => job,
        StageModel::Sending { job } => job,
        StageModel::Reading { job, .. } => job,
        StageModel::Waiting { job } => job,
    }
}

/// What holds of every stage of a fetch: it keeps to permitted URLs, to its redirects and to its
/// tries, and a form has no second try.
pub open spec fn sound(stage: StageModel, opts: FetchOptions) -> bool {
    let job = job_of(stage);
    &&& permitted(job.start, opts.allow_local)
    &&& permitted(job.hop.url, opts.allow_local)
    &&& job.hop.count <= opts.max_redirects
    &&& job.attempt <= job.retries <= opts.max_retries
    &&& job.form is Some ==> job.retries == 0
    &&& stage matches StageModel::Reading { head, .. } ==> fetch::checked(
        head.final_url,
        opts.allow_local,
    ) is Ok
}

/// A fetch is sound at every stage, from its beginning on. So nothing is ever requested that may
/// not be fetched, whatever the redirects say, and no page is read from such a place. No page has
/// more bytes than the options allow, whatever body came.
pub proof fn law_fetches_stay_sound(
    url: Seq<char>,
    form: Option<Seq<(Seq<char>, Seq<char>)>>,
    stage: StageModel,
    reply: ReplyModel,
    nanos: u32,
    opts: FetchOptions,
)
    ensures
        first_step(url, form, opts) matches StepModel::Ask { stage: first, .. } ==> sound(
            first,
            opts,
        ),
        sound(stage, opts) ==> (next_step(stage, reply, nanos, opts) matches StepModel::Ask {
            stage: next,
            ..
        } ==> sound(next, opts)),
        next_step(stage, reply, nanos, opts) matches StepModel::Done { result: Ok(attempt) }
            ==> attempt.res.raw_bytes <= opts.max_bytes,
{
    let job = job_of(stage);
    assert(fetch::checked(url, opts.allow_local) matches Ok(parts) ==> permitted(
        parts.href,
        opts.allow_local,
    ));
    if let StageModel::Sending { .. } = stage {
        if let ReplyModel::Responded { result: Ok(head) } = reply {
            fetch::law_redirects_stay_within_the_rules(
                job.url,
                job.hop,
                head.status,
                head.location,
                head.final_url,
                opts.max_redirects,
                opts.allow_local,
            );
            fetch::law_forms_stay_within_their_origin(
                job.url,
                job.hop,
                head.status,
                head.location,
                head.final_url,
                opts.max_redirects,
                opts.allow_local,
            );
        }
    }
}

/// Every request, that of a redirect or of another try too, comes right after robots.txt was
/// asked about its URL and did not refuse it.
pub proof fn law_robots_come_first(
    stage: StageModel,
    reply: ReplyModel,
    nanos: u32,
    opts: FetchOptions,
)
    ensures
        next_step(stage, reply, nanos, opts) matches StepModel::Ask { stage: next, need } ==> {
            &&& need matches NeedModel::Send { url, .. } ==> stage is Gate && url == job_of(
                stage,
            ).hop.url
            &&& next is Gate ==> stage is Robots && job_of(stage) == job_of(next) && reply
                == (ReplyModel::Robots { refusal: None })
            &&& next is Robots ==> need == (NeedModel::CheckRobots { url: job_of(next).hop.url })
        },
{
}

/// What robots.txt refuses is not requested.
pub proof fn law_refused_is_not_requested(
    job: JobModel,
    url: Seq<char>,
    nanos: u32,
    opts: FetchOptions,
)
    ensures
        next_step(
            StageModel::Robots { job },
            ReplyModel::Robots { refusal: Some(ErrorModel::Robots { url }) },
            nanos,
            opts,
        ) == (StepModel::Done { result: Err(ErrorModel::Robots { url }) }),
{
}

/// A form is never sent again for a failure: where its job stands, no pause for another try
/// follows.
pub proof fn law_forms_are_tried_once(
    url: Seq<char>,
    fields: Seq<(Seq<char>, Seq<char>)>,
    stage: StageModel,
    reply: ReplyModel,
    nanos: u32,
    opts: FetchOptions,
)
    ensures
        first_step(url, Some(fields), opts) matches StepModel::Ask { stage: first, .. } ==> job_of(
            first,
        ).retries == 0,
        job_of(stage).retries == 0 ==> (next_step(stage, reply, nanos, opts) matches StepModel::Ask {
            stage: next,
            ..
        } ==> job_of(next).retries == 0 && !(next is Waiting)),
{
}

/// A fetch begins with the question whether robots.txt lets the URL be requested. A page may be
/// tried as often as the options say, a form is tried once.
pub proof fn law_a_fetch_begins_at_its_url(
    url: Seq<char>,
    form: Option<Seq<(Seq<char>, Seq<char>)>>,
    opts: FetchOptions,
)
    ensures
        match fetch::checked(url, opts.allow_local) {
            Err(e) => first_step(url, form, opts) == (StepModel::Done { result: Err(e) }),
            Ok(parts) => first_step(url, form, opts) == (StepModel::Ask {
                stage: StageModel::Robots {
                    job: JobModel {
                        url,
                        start: parts.href,
                        hop: HopModel { url: parts.href, count: 0 },
                        attempt: 0,
                        retries: if form is None {
                            opts.max_retries
                        } else {
                            0
                        },
                        form,
                    },
                },
                need: NeedModel::CheckRobots { url: parts.href },
            }),
        },
{
}

/// A request waits for its turn at the host of its URL, and is then sent to that URL with the form
/// of the fetch.
pub proof fn law_a_request_goes_to_its_url(job: JobModel, nanos: u32, opts: FetchOptions)
    ensures
        next_step(
            StageModel::Robots { job },
            ReplyModel::Robots { refusal: None },
            nanos,
            opts,
        ) == (StepModel::Ask {
            stage: StageModel::Gate { job },
            need: NeedModel::Enter {
                host: match weburl::parsed(job.hop.url) {
                    Ok(parts) => match parts.host_text {
                        Some(host) => host,
                        None => seq![],
                    },
                    Err(_) => seq![],
                },
            },
        }),
        next_step(StageModel::Gate { job }, ReplyModel::Entered, nanos, opts) == (StepModel::Ask {
            stage: StageModel::Sending { job },
            need: NeedModel::Send { url: job.hop.url, form: job.form },
        }),
        next_step(StageModel::Waiting { job }, ReplyModel::Waited, nanos, opts) == (StepModel::Ask {
            stage: StageModel::Robots { job },
            need: NeedModel::CheckRobots { url: job.hop.url },
        }),
{
}

/// A redirect leads to a new question to robots.txt, and a page to its body, of which no more is
/// read than the options allow. A form is dropped where the redirect does not keep the method.
pub proof fn law_a_response_leads_on_or_is_read(
    job: JobModel,
    head: HeadModel,
    nanos: u32,
    opts: FetchOptions,
)
    ensures
        ({
            let step = next_step(
                StageModel::Sending { job },
                ReplyModel::Responded { result: Ok(head) },
                nanos,
                opts,
            );
            let reading = StepModel::Ask {
                stage: StageModel::Reading { job, head },
                need: NeedModel::ReadBody { max_bytes: opts.max_bytes },
            };
            &&& job.form is None ==> match fetch::hop_step(
                job.url,
                job.hop,
                head.status,
                head.location,
                head.final_url,
                opts.max_redirects,
                opts.allow_local,
            ) {
                HopStepModel::Follow(hop) => step == (StepModel::Ask {
                    stage: StageModel::Robots { job: JobModel { hop, ..job } },
                    need: NeedModel::CheckRobots { url: hop.url },
                }),
                HopStepModel::Accept => step == reading,
                HopStepModel::Fail(e) => step == next_step(
                    StageModel::Sending { job },
                    ReplyModel::Responded { result: Err(e) },
                    nanos,
                    opts,
                ),
            }
            &&& job.form is Some ==> match fetch::post_step(
                job.url,
                job.hop,
                head.status,
                head.location,
                head.final_url,
                opts.max_redirects,
                opts.allow_local,
            ) {
                PostStepModel::Resend(hop) => step == (StepModel::Ask {
                    stage: StageModel::Robots { job: JobModel { hop, ..job } },
                    need: NeedModel::CheckRobots { url: hop.url },
                }),
                PostStepModel::Follow(hop) => step == (StepModel::Ask {
                    stage: StageModel::Robots { job: JobModel { hop, form: None, ..job } },
                    need: NeedModel::CheckRobots { url: hop.url },
                }),
                PostStepModel::Accept => step == reading,
                PostStepModel::Fail(e) => step == next_step(
                    StageModel::Sending { job },
                    ReplyModel::Responded { result: Err(e) },
                    nanos,
                    opts,
                ),
            }
        }),
{
}

/// A body makes the page of the fetch, with all that stood before it. Where the status is worth
/// another try and one is left, the fetch begins again after a pause.
pub proof fn law_a_body_makes_the_page(
    job: JobModel,
    head: HeadModel,
    body: Seq<u8>,
    nanos: u32,
    opts: FetchOptions,
)
    requires
        body.len() <= opts.max_bytes,
        body.len() <= usize::MAX / 8,
    ensures
        ({
            let step = next_step(
                StageModel::Reading { job, head },
                ReplyModel::Body { result: Ok(body) },
                nanos,
                opts,
            );
            let page = fetch::attempt_of(
                head.final_url,
                head.status,
                head.content_type,
                head.retry_after,
                body,
            );
            let busy = head.status == 429 || head.status == 500 || head.status == 502 || head.status
                == 503 || head.status == 504;
            &&& !busy || job.attempt >= job.retries ==> step == (StepModel::Done {
                result: Ok(page),
            })
            &&& busy && job.attempt < job.retries ==> {
                &&& step matches StepModel::Ask { stage, need } && stage == (StageModel::Waiting {
                    job: JobModel {
                        hop: HopModel { url: job.start, count: 0 },
                        attempt: (job.attempt + 1) as usize,
                        ..job
                    },
                }) && need is Pause
                &&& page.retry_after matches Some(wait) ==> step->need == (NeedModel::Pause { wait })
            }
        }),
{
}

/// A body that is longer than allowed is used as if it ended there.
pub proof fn law_a_long_body_is_cut(
    job: JobModel,
    head: HeadModel,
    body: Seq<u8>,
    nanos: u32,
    opts: FetchOptions,
)
    requires
        body.len() > opts.max_bytes,
    ensures
        next_step(
            StageModel::Reading { job, head },
            ReplyModel::Body { result: Ok(body) },
            nanos,
            opts,
        ) == next_step(
            StageModel::Reading { job, head },
            ReplyModel::Body { result: Ok(body.take(opts.max_bytes as int)) },
            nanos,
            opts,
        ),
{
}

/// An error ends the fetch, at whatever stage it comes, unless it may pass and a try is left: then
/// the fetch begins again at its start after a pause.
pub proof fn law_errors_that_may_pass_are_waited_out(
    job: JobModel,
    head: HeadModel,
    e: ErrorModel,
    nanos: u32,
    opts: FetchOptions,
)
    ensures
        ({
            let sending = next_step(
                StageModel::Sending { job },
                ReplyModel::Responded { result: Err(e) },
                nanos,
                opts,
            );
            let passes = e matches ErrorModel::Outside { transient, .. } && transient;
            &&& !passes || job.attempt >= job.retries ==> sending == (StepModel::Done {
                result: Err(e),
            })
            &&& passes && job.attempt < job.retries ==> sending == (StepModel::Ask {
                stage: StageModel::Waiting {
                    job: JobModel {
                        hop: HopModel { url: job.start, count: 0 },
                        attempt: (job.attempt + 1) as usize,
                        ..job
                    },
                },
                need: NeedModel::Pause {
                    wait: Span {
                        nanos: ((fetch::base_delay(job.attempt) + fetch::jitter(
                            job.attempt,
                            nanos,
                        )) * 1_000_000) as u128,
                    },
                },
            })
            &&& next_step(
                StageModel::Reading { job, head },
                ReplyModel::Body { result: Err(e) },
                nanos,
                opts,
            ) == sending
            &&& next_step(
                StageModel::Robots { job },
                ReplyModel::Robots { refusal: Some(e) },
                nanos,
                opts,
            ) == sending
        }),
{
}

/// A reply that a fetch does not wait for is an error.
pub proof fn law_replies_out_of_turn_are_refused(
    stage: StageModel,
    reply: ReplyModel,
    nanos: u32,
    opts: FetchOptions,
)
    requires
        stage is Robots ==> !(reply is Robots),
        stage is Gate ==> !(reply is Entered),
        stage is Sending ==> !(reply is Responded),
        stage is Reading ==> !(reply is Body),
        stage is Waiting ==> !(reply is Waited),
    ensures
        next_step(stage, reply, nanos, opts) == (StepModel::Done {
            result: Err(ErrorModel::OutOfTurn),
        }),
{
}

} // verus!
