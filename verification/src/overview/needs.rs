//! The needs-me rows: who each is for, one row per subject, and the order
//! they stand in.
use crate::order;
use crate::text;
use crate::time;
use crate::json::{Json, JsonView};
use vstd::prelude::*;

verus! {

/// A team row unhandled this long is the operator's (seconds).
pub const ESCALATE_AFTER_SECS: i64 = 3600;

/// The alias of the operator's own mailbox.
pub const OPERATOR: &'static str = "operator";

/// Who a needs-me row is for, most urgent first.
#[derive(Clone, Copy, Debug, PartialEq, Eq, Structural)]
pub enum Audience {
    /// "Needs your decision".
    Operator,
    /// A live owner can act on it.
    Team,
    /// Waiting on something outside the fleet (a restart when idle).
    Dependency,
    /// Nothing to decide.
    Info,
}

/// The class that a kind of row starts in.
pub open spec fn class_of(kind: Seq<char>) -> Audience {
    if kind == "approval"@ || kind == "fenced"@ || kind == "question"@ || kind == "plan"@ || kind
        == "merge_decision"@ || kind == "review_escalated"@ || kind == "review_unstaffed"@ || kind
        == "auto_merge_on"@ || kind == "delivery_unreadable"@ {
        Audience::Operator
    } else if kind == "drift"@ {
        Audience::Dependency
    } else if kind == "inbox_unread"@ || kind == "tracker_behind"@ || kind == "master_unconfined"@
        || kind == "master_login"@ {
        Audience::Info
    } else {
        Audience::Team
    }
}

/// The place of an audience in the order of urgency.
pub open spec fn urgency(a: Audience) -> int {
    match a {
        Audience::Operator => 0,
        Audience::Team => 1,
        Audience::Dependency => 2,
        Audience::Info => 3,
    }
}

impl Audience {
    pub fn as_str(self) -> (r: &'static str)
        ensures
            r@ == match self {
                Audience::Operator => "operator"@,
                Audience::Team => "team"@,
                Audience::Dependency => "dependency"@,
                Audience::Info => "info"@,
            },
    {
        match self {
            Audience::Operator => "operator",
            Audience::Team => "team",
            Audience::Dependency => "dependency",
            Audience::Info => "info",
        }
    }

    /// The class that a kind starts in. Only team rows escalate; an
    /// unknown kind is team work, so that it still can.
    pub fn of_kind(kind: &str) -> (r: Audience)
        ensures
            r == class_of(kind@),
    {
        if text::eq(kind, "approval") || text::eq(kind, "fenced") || text::eq(kind, "question")
            || text::eq(kind, "plan") || text::eq(kind, "merge_decision") || text::eq(
            kind,
            "review_escalated",
        ) || text::eq(kind, "review_unstaffed") || text::eq(kind, "auto_merge_on") || text::eq(
            kind,
            "delivery_unreadable",
        ) {
            Audience::Operator
        } else if text::eq(kind, "drift") {
            Audience::Dependency
        } else if text::eq(kind, "inbox_unread") || text::eq(kind, "tracker_behind") || text::eq(
            kind,
            "master_unconfined",
        ) || text::eq(kind, "master_login") {
            Audience::Info
        } else {
            Audience::Team
        }
    }

    fn place(self) -> (r: u8)
        ensures
            r == urgency(self),
    {
        match self {
            Audience::Operator => 0,
            Audience::Team => 1,
            Audience::Dependency => 2,
            Audience::Info => 3,
        }
    }
}

/// What a merge decision shows.
#[derive(Debug)]
pub struct MergeInfo {
    pub issue: String,
    pub pr: Option<String>,
    pub pr_ref: Option<String>,
    pub sha: String,
    pub owner: String,
    pub reviewer: String,
    pub verdict_summary: String,
    pub report: String,
    pub additions: u64,
    pub deletions: u64,
    pub files: u64,
    pub decline: String,
}

/// What a proposed plan shows.
#[derive(Debug)]
pub struct PlanInfo {
    pub epic: String,
    pub proposed_by: String,
    pub tickets: Vec<String>,
}

/// What an escalated question shows.
#[derive(Debug)]
pub struct QuestionInfo {
    pub issue: String,
    pub report: String,
    pub agent: String,
    pub impact: String,
    pub body: String,
    pub options: Vec<String>,
    /// What the escalation record says of it.
    pub summary: Json,
    pub escalated_by: Json,
}

/// What a row carries besides the fields every row has.
#[derive(Debug)]
pub enum Extra {
    Nothing,
    Merge(MergeInfo),
    Plan(PlanInfo),
    Question(QuestionInfo),
    /// The owner of a stale inbox.
    Owner(String),
}

/// One cause of a row.
#[derive(Debug)]
pub struct Cause {
    pub cause: String,
    pub title: String,
    pub age: i64,
    pub command: String,
    pub audience: Audience,
    pub since: Option<i64>,
}

/// A needs-me row.
#[derive(Debug)]
pub struct Item {
    /// How severe its kind is, lowest first.
    pub rank: u8,
    pub kind: String,
    pub title: String,
    pub age: i64,
    pub project: String,
    pub link: Option<String>,
    pub command: String,
    /// What the row is about: rows that name the same subject merge.
    pub subject_kind: String,
    pub subject_id: String,
    /// Aliases the row belongs to.
    pub agents: Vec<String>,
    /// Who is responsible for acting on it.
    pub owner: Option<String>,
    pub audience: Audience,
    pub reason: Option<String>,
    /// When its condition began (epoch seconds), where that is known.
    pub since: Option<i64>,
    pub extra: Extra,
    pub causes: Vec<Cause>,
}

pub struct CauseView {
    pub cause: Seq<char>,
    pub title: Seq<char>,
    pub age: i64,
    pub command: Seq<char>,
    pub audience: Audience,
    pub since: Option<i64>,
}

pub struct ItemView {
    pub rank: u8,
    pub kind: Seq<char>,
    pub title: Seq<char>,
    pub age: i64,
    pub project: Seq<char>,
    pub link: Option<Seq<char>>,
    pub command: Seq<char>,
    pub subject: (Seq<char>, Seq<char>),
    pub agents: Seq<Seq<char>>,
    pub owner: Option<Seq<char>>,
    pub audience: Audience,
    pub reason: Option<Seq<char>>,
    pub since: Option<i64>,
    pub extra: ExtraView,
    pub causes: Seq<CauseView>,
}

pub enum ExtraView {
    Nothing,
    Merge {
        issue: Seq<char>,
        pr: Option<Seq<char>>,
        pr_ref: Option<Seq<char>>,
        sha: Seq<char>,
        owner: Seq<char>,
        reviewer: Seq<char>,
        verdict_summary: Seq<char>,
        report: Seq<char>,
        additions: u64,
        deletions: u64,
        files: u64,
        decline: Seq<char>,
    },
    Plan { epic: Seq<char>, proposed_by: Seq<char>, tickets: Seq<Seq<char>> },
    Question {
        issue: Seq<char>,
        report: Seq<char>,
        agent: Seq<char>,
        impact: Seq<char>,
        body: Seq<char>,
        options: Seq<Seq<char>>,
        summary: JsonView,
        escalated_by: JsonView,
    },
    Owner(Seq<char>),
}

impl View for Extra {
    type V = ExtraView;

    open spec fn view(&self) -> ExtraView {
        match *self {
            Extra::Nothing => ExtraView::Nothing,
            Extra::Merge(m) => ExtraView::Merge {
                issue: m.issue@,
                pr: m.pr.deep_view(),
                pr_ref: m.pr_ref.deep_view(),
                sha: m.sha@,
                owner: m.owner@,
                reviewer: m.reviewer@,
                verdict_summary: m.verdict_summary@,
                report: m.report@,
                additions: m.additions,
                deletions: m.deletions,
                files: m.files,
                decline: m.decline@,
            },
            Extra::Plan(p) => ExtraView::Plan {
                epic: p.epic@,
                proposed_by: p.proposed_by@,
                tickets: p.tickets.deep_view(),
            },
            Extra::Question(q) => ExtraView::Question {
                issue: q.issue@,
                report: q.report@,
                agent: q.agent@,
                impact: q.impact@,
                body: q.body@,
                options: q.options.deep_view(),
                summary: q.summary@,
                escalated_by: q.escalated_by@,
            },
            Extra::Owner(o) => ExtraView::Owner(o@),
        }
    }
}

impl View for Cause {
    type V = CauseView;

    open spec fn view(&self) -> CauseView {
        CauseView {
            cause: self.cause@,
            title: self.title@,
            age: self.age,
            command: self.command@,
            audience: self.audience,
            since: self.since,
        }
    }
}

pub open spec fn cause_views(v: Seq<Cause>) -> Seq<CauseView> {
    v.map_values(|c: Cause| c@)
}

impl View for Item {
    type V = ItemView;

    open spec fn view(&self) -> ItemView {
        ItemView {
            rank: self.rank,
            kind: self.kind@,
            title: self.title@,
            age: self.age,
            project: self.project@,
            link: self.link.deep_view(),
            command: self.command@,
            subject: (self.subject_kind@, self.subject_id@),
            agents: self.agents.deep_view(),
            owner: self.owner.deep_view(),
            audience: self.audience,
            reason: self.reason.deep_view(),
            since: self.since,
            extra: self.extra@,
            causes: cause_views(self.causes@),
        }
    }
}

pub open spec fn views(v: Seq<Item>) -> Seq<ItemView> {
    v.map_values(|i: Item| i@)
}

pub proof fn views_push(v: Seq<Item>, x: Item)
    ensures
        views(v.push(x)) == views(v).push(x@),
{
    assert(views(v.push(x)) =~= views(v).push(x@));
}

// ---------- building a row ----------

/// A new row of a kind: its own subject until one is named, owned by
/// nobody, with no clock. A negative age counts as none.
pub open spec fn new_row(
    rank: u8,
    kind: Seq<char>,
    title: Seq<char>,
    age: i64,
    project: Seq<char>,
    link: Option<Seq<char>>,
    command: Seq<char>,
) -> ItemView {
    ItemView {
        rank,
        kind,
        title,
        age: if age < 0 {
            0
        } else {
            age
        },
        project,
        link,
        command,
        subject: ("row"@, kind + ":"@ + title),
        agents: seq![],
        owner: None,
        audience: class_of(kind),
        reason: None,
        since: None,
        extra: ExtraView::Nothing,
        causes: seq![],
    }
}

impl ItemView {
    pub open spec fn about(self, kind: Seq<char>, id: Seq<char>) -> ItemView {
        ItemView { subject: (kind, id), ..self }
    }

    pub open spec fn for_agent(self, alias: Seq<char>) -> ItemView {
        if alias.len() == 0 || self.agents.contains(alias) {
            self
        } else {
            ItemView { agents: self.agents.push(alias), ..self }
        }
    }

    pub open spec fn owned_by(self, owner: Option<Seq<char>>) -> ItemView {
        ItemView {
            owner: match owner {
                Some(o) if o.len() > 0 => Some(o),
                _ => None,
            },
            ..self
        }
    }

    pub open spec fn since(self, since: Option<i64>) -> ItemView {
        ItemView { since, ..self }
    }

    pub open spec fn with(self, extra: ExtraView) -> ItemView {
        ItemView { extra, ..self }
    }
}

/// A new row of a kind.
pub fn item(
    rank: u8,
    kind: &str,
    title: &str,
    age: i64,
    project: &str,
    link: Option<&str>,
    command: &str,
) -> (r: Item)
    ensures
        r@ == new_row(rank, kind@, title@, age, project@, link.deep_view(), command@),
{
    let r = Item {
        rank,
        kind: kind.to_owned(),
        title: title.to_owned(),
        age: if age < 0 {
            0
        } else {
            age
        },
        project: project.to_owned(),
        link: match link {
            Some(l) => Some(l.to_owned()),
            None => None,
        },
        command: command.to_owned(),
        subject_kind: "row".to_owned(),
        subject_id: kind.to_owned().concat(":").concat(title),
        agents: Vec::new(),
        owner: None,
        audience: Audience::of_kind(kind),
        reason: None,
        since: None,
        extra: Extra::Nothing,
        causes: Vec::new(),
    };
    assert(r.agents.deep_view() =~= seq![]);
    assert(cause_views(r.causes@) =~= seq![]);
    r
}

impl Item {
    /// Names the row's subject: an agent, issue, PR, repo, deploy,
    /// tracker or report.
    pub fn about(self, kind: &str, id: &str) -> (r: Item)
        ensures
            r@ == self@.about(kind@, id@),
    {
        let mut r = self;
        r.subject_kind = kind.to_owned();
        r.subject_id = id.to_owned();
        r
    }

    /// Adds an alias that the row belongs to, once.
    pub fn for_agent(self, alias: &str) -> (r: Item)
        ensures
            r@ == self@.for_agent(alias@),
    {
        if alias.is_empty() || text::has_name(&self.agents, alias) {
            return self;
        }
        let mut r = self;
        r.agents.push(alias.to_owned());
        assert(r.agents.deep_view() =~= self.agents.deep_view().push(alias@));
        r
    }

    /// Names who must act on the row.
    pub fn owned_by(self, owner: Option<&str>) -> (r: Item)
        ensures
            r@ == self@.owned_by(owner.deep_view()),
    {
        let mut r = self;
        r.owner =
        match owner {
            Some(o) => if o.is_empty() {
                None
            } else {
                Some(o.to_owned())
            },
            None => None,
        };
        r
    }

    /// Sets when the row's condition began, when known.
    pub fn since(self, since: Option<i64>) -> (r: Item)
        ensures
            r@ == self@.since(since),
    {
        let mut r = self;
        r.since = since;
        r
    }

    /// Gives the row what only its kind carries.
    pub fn with(self, extra: Extra) -> (r: Item)
        ensures
            r@ == self@.with(extra@),
    {
        let mut r = self;
        r.extra = extra;
        r
    }
}

// ---------- who a row is for ----------

/// What an owner's liveness is judged by.
#[derive(Debug)]
pub struct OwnerRow {
    pub alias: String,
    pub dead: bool,
    pub state: Option<String>,
    /// Its mailbox has no consumer.
    pub inbox_stale: bool,
}

/// The registered agents, as far as the daemon could be reached.
#[derive(Debug)]
pub struct Owners {
    pub reachable: bool,
    pub agents: Vec<OwnerRow>,
}

/// The last row of an alias.
pub open spec fn row_of(rows: Seq<OwnerRow>, alias: Seq<char>) -> Option<OwnerRow>
    decreases rows.len(),
{
    if rows.len() == 0 {
        None
    } else if rows.last().alias@ == alias {
        Some(rows.last())
    } else {
        row_of(rows.drop_last(), alias)
    }
}

/// Why an owner cannot act on a row; `None` when it can.
pub open spec fn incapable(owners: Owners, owner: Option<Seq<char>>) -> Option<Seq<char>> {
    match owner {
        Some(o) if o.len() > 0 => if o == OPERATOR@ {
            Some("owner is the operator"@)
        } else if !owners.reachable {
            Some("owner "@ + o + " unknown — daemon unreachable"@)
        } else {
            match row_of(owners.agents@, o) {
                None => Some("owner "@ + o + " is absent"@),
                Some(a) => if a.dead {
                    Some("owner "@ + o + " is dead"@)
                } else if a.state.deep_view() == Some("attention"@) {
                    Some("owner "@ + o + " is fenced"@)
                } else if a.state.deep_view() == Some("stopped"@) {
                    Some("owner "@ + o + " is stopped"@)
                } else if a.inbox_stale {
                    Some("owner "@ + o + " has no inbox consumer"@)
                } else {
                    None
                },
            }
        },
        _ => Some("no owner"@),
    }
}

impl Owners {
    fn find(&self, alias: &str) -> (r: Option<&OwnerRow>)
        ensures
            match r {
                Some(a) => row_of(self.agents@, alias@) == Some(*a),
                None => row_of(self.agents@, alias@) is None,
            },
    {
        let mut i: usize = self.agents.len();
        assert(self.agents@.take(i as int) =~= self.agents@);
        while i > 0
            invariant
                i <= self.agents@.len(),
                row_of(self.agents@, alias@) == row_of(self.agents@.take(i as int), alias@),
            decreases i,
        {
            assert(self.agents@.take(i as int).drop_last() =~= self.agents@.take(i - 1));
            i = i - 1;
            if text::eq(self.agents[i].alias.as_str(), alias) {
                return Some(&self.agents[i]);
            }
        }
        None
    }

    /// Why `owner` cannot act on a row; `None` when a live owner can.
    pub fn cannot_act(&self, owner: &Option<String>) -> (r: Option<String>)
        ensures
            r.deep_view() == incapable(*self, owner.deep_view()),
    {
        let o = match owner {
            None => {
                return Some("no owner".to_owned());
            },
            Some(o) => o.as_str(),
        };
        if o.is_empty() {
            return Some("no owner".to_owned());
        }
        if text::eq(o, OPERATOR) {
            return Some("owner is the operator".to_owned());
        }
        let who = "owner ".to_owned().concat(o);
        if !self.reachable {
            return Some(who.concat(" unknown — daemon unreachable"));
        }
        match self.find(o) {
            None => Some(who.concat(" is absent")),
            Some(a) => {
                if a.dead {
                    return Some(who.concat(" is dead"));
                }
                if text::opt_is(&a.state, "attention") {
                    return Some(who.concat(" is fenced"));
                }
                if text::opt_is(&a.state, "stopped") {
                    return Some(who.concat(" is stopped"));
                }
                if a.inbox_stale {
                    return Some(who.concat(" has no inbox consumer"));
                }
                None
            },
        }
    }
}

/// How long a row's condition has stood; `None` without a clock.
pub open spec fn unhandled(since: Option<i64>, now: i64) -> Option<int> {
    match since {
        None => None,
        Some(s) => {
            let d = time::clamp(now - s);
            Some(
                if d < 0 {
                    0
                } else {
                    d as int
                },
            )
        },
    }
}

/// Who a row is for and why: an operator kind is the operator's; a team
/// row is too when its owner cannot act or it has stood unhandled for too
/// long.
pub open spec fn judged(
    kind: Seq<char>,
    owner: Option<Seq<char>>,
    since: Option<i64>,
    owners: Owners,
    now: i64,
    escalate_after: i64,
) -> (Audience, Option<Seq<char>>) {
    match class_of(kind) {
        Audience::Operator => (Audience::Operator, Some("operator decision"@)),
        Audience::Team => match incapable(owners, owner) {
            Some(why) => (Audience::Operator, Some(why)),
            None => match unhandled(since, now) {
                Some(u) if u > escalate_after => (
                    Audience::Operator,
                    Some("unhandled "@ + text::dec((u / 60) as nat) + "m"@),
                ),
                _ => (
                    Audience::Team,
                    Some(
                        "owner "@ + (match owner {
                            Some(o) => o,
                            None => seq![],
                        }) + " can act"@,
                    ),
                ),
            },
        },
        other => (other, None),
    }
}

pub open spec fn classified(it: ItemView, owners: Owners, now: i64, escalate_after: i64) -> ItemView {
    let j = judged(it.kind, it.owner, it.since, owners, now, escalate_after);
    ItemView { audience: j.0, reason: j.1, ..it }
}

fn judge(it: &Item, owners: &Owners, now: i64, escalate_after: i64) -> (r: (
    Audience,
    Option<String>,
))
    ensures
        (r.0, r.1.deep_view()) == judged(it.kind@, it.owner.deep_view(), it.since, *owners, now, escalate_after),
{
    match Audience::of_kind(it.kind.as_str()) {
        Audience::Operator => (Audience::Operator, Some("operator decision".to_owned())),
        Audience::Team => match owners.cannot_act(&it.owner) {
            Some(why) => (Audience::Operator, Some(why)),
            None => {
                if let Some(s) = it.since {
                    let d: i64 = time::minus(now, s);
                    let u: i64 = if d < 0 {
                        0
                    } else {
                        d
                    };
                    if u > escalate_after {
                        return (
                            Audience::Operator,
                            Some(
                                "unhandled ".to_owned().concat(
                                    text::dec_of((u / 60) as u64).as_str(),
                                ).concat("m"),
                            ),
                        );
                    }
                }
                let owner = match &it.owner {
                    Some(o) => o.clone(),
                    None => String::new(),
                };
                (
                    Audience::Team,
                    Some("owner ".to_owned().concat(owner.as_str()).concat(" can act")),
                )
            },
        },
        other => (other, None),
    }
}

/// Resolves every row's audience and reason, each on its own owner and
/// clock; the rest of a row stays as it is.
pub fn classify_needs(items: Vec<Item>, owners: &Owners, now: i64, escalate_after: i64) -> (r: Vec<
    Item,
>)
    ensures
        r@.len() == items@.len(),
        forall|i: int|
            0 <= i < items@.len() ==> (#[trigger] r@[i])@ == classified(
                items@[i]@,
                *owners,
                now,
                escalate_after,
            ),
{
    let mut r: Vec<Item> = Vec::new();
    for x in it: items
        invariant
            r@.len() == it.index(),
            it.seq() == items@,
            forall|i: int|
                0 <= i < it.index() ==> (#[trigger] r@[i])@ == classified(
                    items@[i]@,
                    *owners,
                    now,
                    escalate_after,
                ),
    {
        let (audience, reason) = judge(&x, owners, now, escalate_after);
        let mut y = x;
        y.audience = audience;
        y.reason = reason;
        r.push(y);
    }
    r
}


// ---------- one row per subject ----------

pub open spec fn same_subject(a: ItemView, b: ItemView) -> bool {
    a.subject == b.subject
}

/// `x` put with the rows of its subject, or last as a group of its own.
pub open spec fn placed(groups: Seq<Seq<ItemView>>, x: ItemView) -> Seq<Seq<ItemView>>
    decreases groups.len(),
{
    if groups.len() == 0 {
        seq![seq![x]]
    } else if same_subject(groups[0][0], x) {
        seq![groups[0].push(x)] + groups.drop_first()
    } else {
        seq![groups[0]] + placed(groups.drop_first(), x)
    }
}

/// The rows by subject: subjects in the order in which they first come,
/// the rows of each as they come.
pub open spec fn grouped(items: Seq<ItemView>) -> Seq<Seq<ItemView>>
    decreases items.len(),
{
    if items.len() == 0 {
        seq![]
    } else {
        placed(grouped(items.drop_last()), items.last())
    }
}

pub open spec fn by_rank() -> spec_fn(ItemView, ItemView) -> bool {
    |a: ItemView, b: ItemView| a.rank <= b.rank
}

pub open spec fn cause_of(i: ItemView) -> CauseView {
    CauseView {
        cause: i.kind,
        title: i.title,
        age: i.age,
        command: i.command,
        audience: i.audience,
        since: i.since,
    }
}

pub open spec fn causes_of(g: Seq<ItemView>) -> Seq<CauseView> {
    g.map_values(|i: ItemView| cause_of(i))
}

pub open spec fn all_agents(g: Seq<ItemView>) -> Seq<Seq<char>>
    decreases g.len(),
{
    if g.len() == 0 {
        seq![]
    } else {
        all_agents(g.drop_last()) + g.last().agents
    }
}

/// The first of the most urgent rows.
pub open spec fn most_urgent(g: Seq<ItemView>) -> ItemView
    decreases g.len(),
{
    if g.len() <= 1 {
        g[0]
    } else {
        let before = most_urgent(g.drop_last());
        if urgency(g.last().audience) < urgency(before.audience) {
            g.last()
        } else {
            before
        }
    }
}

/// The one row of a subject: its most severe row, with every cause, most
/// severe first, and every alias. It is for whoever its most urgent cause
/// is for.
pub open spec fn merged(group: Seq<ItemView>) -> ItemView {
    let g = order::sorted(group, by_rank());
    let urgent = most_urgent(g);
    let primary = g[0];
    ItemView {
        causes: causes_of(g),
        agents: text::name_set(all_agents(g)),
        audience: urgent.audience,
        reason: if primary.audience != urgent.audience {
            urgent.reason
        } else {
            primary.reason
        },
        ..primary
    }
}

/// One row for each subject of the rows.
pub open spec fn merged_rows(items: Seq<ItemView>) -> Seq<ItemView> {
    grouped(items).map_values(|g: Seq<ItemView>| merged(g))
}

proof fn name_set_add(a: Seq<Seq<char>>, b: Seq<Seq<char>>, k: int)
    requires
        0 <= k < b.len(),
    ensures
        text::name_set(a + b.take(k + 1)) == text::put(text::name_set(a + b.take(k)), b[k]),
{
    let c = a + b.take(k + 1);
    assert(c.drop_last() =~= a + b.take(k));
    assert(c.last() == b[k]);
}

/// Sorts rows by rank, ties as they come.
fn sort_by_rank(items: Vec<Item>) -> (r: Vec<Item>)
    ensures
        views(r@) == order::sorted(views(items@), by_rank()),
{
    let mut out: Vec<Item> = Vec::new();
    let ghost le = by_rank();
    let ghost d = views(items@);
    assert(views(out@) =~= order::sorted(d.take(0), le));
    for x in it: items
        invariant
            it.seq() == items@,
            d == views(items@),
            le == by_rank(),
            views(out@) == order::sorted(d.take(it.index()), le),
    {
        let ghost n = it.index();
        assert(d.take(n + 1).drop_last() =~= d.take(n));
        assert(d.take(n + 1).last() == x@);
        let ghost o = views(out@);
        let ghost xv = x@;
        let mut k: usize = out.len();
        while k > 0 && out[k - 1].rank > x.rank
            invariant
                le == by_rank(),
                o == views(out@),
                k <= out@.len(),
                forall|i: int| k <= i < o.len() ==> !le(#[trigger] o[i], x@),
            decreases k,
        {
            assert(o[k - 1] == out@[k - 1]@);
            k = k - 1;
        }
        proof {
            if k > 0 {
                assert(o[k - 1] == out@[k - 1]@);
            }
            order::insert_at(o, xv, le, k as int);
        }
        out.insert(k, x);
        assert(views(out@) =~= o.insert(k as int, xv));
    }
    assert(d.take(d.len() as int) =~= d);
    out
}

fn merge_group(group: Vec<Item>) -> (r: Item)
    requires
        group@.len() > 0,
    ensures
        r@ == merged(views(group@)),
{
    let mut g = sort_by_rank(group);
    proof {
        order::sorted_is_a_sort(views(group@), by_rank());
    }
    let ghost all = views(g@);
    assert(all.len() == g@.len());
    let mut causes: Vec<Cause> = Vec::new();
    let mut agents: Vec<String> = Vec::new();
    assert(agents.deep_view() =~= Seq::empty());
    assert(all_agents(all.take(0)) =~= Seq::empty());
    let mut u: usize = 0;
    let mut i: usize = 0;
    while i < g.len()
        invariant
            views(g@) == all,
            all.len() == g@.len(),
            all.len() > 0,
            i <= all.len(),
            u < all.len(),
            i > 0 ==> all[u as int] == most_urgent(all.take(i as int)),
            i == 0 ==> u == 0,
            cause_views(causes@) == causes_of(all.take(i as int)),
            agents.deep_view() == text::name_set(all_agents(all.take(i as int))),
            text::increasing(agents.deep_view()),
        decreases g.len() - i,
    {
        let ghost grown = all.take(i + 1);
        assert(grown.drop_last() =~= all.take(i as int));
        assert(grown.last() == g@[i as int]@);
        assert(all[u as int] == g@[u as int]@);
        let it = &g[i];
        let ghost before = cause_views(causes@);
        causes.push(
            Cause {
                cause: it.kind.clone(),
                title: it.title.clone(),
                age: it.age,
                command: it.command.clone(),
                audience: it.audience,
                since: it.since,
            },
        );
        assert(cause_views(causes@) =~= before.push(cause_of(it@)));
        assert(causes_of(grown) =~= before.push(cause_of(it@)));
        let ghost names = all_agents(all.take(i as int));
        let ghost own = it.agents.deep_view();
        let mut k: usize = 0;
        assert(names + own.take(0) =~= names);
        while k < it.agents.len()
            invariant
                own == it.agents.deep_view(),
                k <= it.agents@.len(),
                agents.deep_view() == text::name_set(names + own.take(k as int)),
                text::increasing(agents.deep_view()),
            decreases it.agents.len() - k,
        {
            proof {
                name_set_add(names, own, k as int);
            }
            text::insert_name(&mut agents, it.agents[k].as_str());
            k = k + 1;
        }
        assert(own.take(k as int) =~= own);
        assert(all_agents(grown) == names + own);
        if i == 0 {
            assert(grown.len() == 1);
        } else if it.audience.place() < g[u].audience.place() {
            u = i;
        }
        i = i + 1;
    }
    assert(all.take(i as int) =~= all);
    assert(all[u as int] == g@[u as int]@);
    assert(all[0] == g@[0]@);
    let audience = g[u].audience;
    let reason = if g[0].audience == audience {
        text::opt_copy(&g[0].reason)
    } else {
        text::opt_copy(&g[u].reason)
    };
    let primary = g.swap_remove(0);
    let mut r = primary;
    r.causes = causes;
    r.agents = agents;
    r.audience = audience;
    r.reason = reason;
    r
}

pub open spec fn nonempty(groups: Seq<Seq<ItemView>>) -> bool {
    forall|i: int| 0 <= i < groups.len() ==> (#[trigger] groups[i]).len() > 0
}

proof fn placed_at(groups: Seq<Seq<ItemView>>, x: ItemView, k: int)
    requires
        0 <= k <= groups.len(),
        forall|i: int| 0 <= i < k ==> !same_subject(#[trigger] groups[i][0], x),
        k < groups.len() ==> same_subject(groups[k][0], x),
    ensures
        placed(groups, x) == if k < groups.len() {
            groups.update(k, groups[k].push(x))
        } else {
            groups.push(seq![x])
        },
    decreases groups.len(),
{
    if groups.len() == 0 {
        assert(groups.push(seq![x]) =~= seq![seq![x]]);
    } else if k == 0 {
        assert(seq![groups[0].push(x)] + groups.drop_first() =~= groups.update(
            0,
            groups[0].push(x),
        ));
    } else {
        let t = groups.drop_first();
        assert(!same_subject(groups[0][0], x));
        assert forall|i: int| 0 <= i < k - 1 implies !same_subject(#[trigger] t[i][0], x) by {
            assert(!same_subject(groups[i + 1][0], x));
        }
        placed_at(t, x, k - 1);
        if k < groups.len() {
            assert(seq![groups[0]] + t.update(k - 1, t[k - 1].push(x)) =~= groups.update(
                k,
                groups[k].push(x),
            ));
        } else {
            assert(seq![groups[0]] + t.push(seq![x]) =~= groups.push(seq![x]));
        }
    }
}

pub open spec fn group_views(g: Seq<Vec<Item>>) -> Seq<Seq<ItemView>> {
    g.map_values(|v: Vec<Item>| views(v@))
}

/// One row per subject.
pub fn merge_by_subject(items: Vec<Item>) -> (r: Vec<Item>)
    ensures
        views(r@) == merged_rows(views(items@)),
{
    let ghost d = views(items@);
    let mut groups: Vec<Vec<Item>> = Vec::new();
    assert(group_views(groups@) =~= grouped(d.take(0)));
    for x in it: items
        invariant
            it.seq() == items@,
            d == views(items@),
            group_views(groups@) == grouped(d.take(it.index())),
            nonempty(group_views(groups@)),
    {
        let ghost n = it.index();
        let ghost gv = group_views(groups@);
        let ghost xv = x@;
        assert(d.take(n + 1).drop_last() =~= d.take(n));
        assert(d.take(n + 1).last() == xv);
        let mut k: usize = 0;
        assert forall|i: int| 0 <= i < groups@.len() implies (#[trigger] groups@[i])@.len() > 0
            && gv[i][0] == groups@[i]@[0]@ by {
            assert(gv[i] == views(groups@[i]@));
        }
        while k < groups.len() && !(text::eq(
            groups[k][0].subject_kind.as_str(),
            x.subject_kind.as_str(),
        ) && text::eq(groups[k][0].subject_id.as_str(), x.subject_id.as_str()))
            invariant
                k <= groups@.len(),
                gv == group_views(groups@),
                xv == x@,
                forall|i: int| 0 <= i < k ==> !same_subject(#[trigger] gv[i][0], xv),
                forall|i: int|
                    0 <= i < groups@.len() ==> (#[trigger] groups@[i])@.len() > 0 && gv[i][0]
                        == groups@[i]@[0]@,
            decreases groups.len() - k,
        {
            assert(gv[k as int][0] == groups@[k as int]@[0]@);
            k = k + 1;
        }
        proof {
            if k < groups@.len() {
                assert(gv[k as int][0] == groups@[k as int]@[0]@);
            }
            placed_at(gv, xv, k as int);
        }
        if k < groups.len() {
            let ghost old_group = groups@[k as int]@;
            groups[k].push(x);
            proof {
                views_push(old_group, x);
            }
            assert(group_views(groups@) =~= gv.update(k as int, gv[k as int].push(xv)));
        } else {
            let mut g: Vec<Item> = Vec::new();
            g.push(x);
            assert(views(g@) =~= seq![xv]);
            groups.push(g);
            assert(group_views(groups@) =~= gv.push(seq![xv]));
        }
        assert(nonempty(group_views(groups@)));
    }
    assert(d.take(d.len() as int) =~= d);
    let ghost gv = group_views(groups@);
    let mut r: Vec<Item> = Vec::new();
    for g in it: groups
        invariant
            it.seq() == groups@,
            gv == group_views(groups@),
            nonempty(gv),
            views(r@) == gv.take(it.index()).map_values(|g: Seq<ItemView>| merged(g)),
    {
        let ghost n = it.index();
        assert(gv[n as int] == views(g@));
        let ghost before = views(r@);
        let m = merge_group(g);
        r.push(m);
        assert(views(r@) =~= before.push(merged(gv[n as int])));
        assert(gv.take(n + 1).map_values(|g: Seq<ItemView>| merged(g)) =~= before.push(
            merged(gv[n as int]),
        ));
    }
    assert(gv.take(gv.len() as int) =~= gv);
    r
}

// ---------- order and scope ----------

/// `a` may stand before `b`: a lower rank, or the same and not younger.
pub open spec fn more_urgent(a: ItemView, b: ItemView) -> bool {
    a.rank < b.rank || (a.rank == b.rank && a.age >= b.age)
}

pub open spec fn by_urgency() -> spec_fn(ItemView, ItemView) -> bool {
    |a: ItemView, b: ItemView| more_urgent(a, b)
}

/// The rows by rank, the oldest first inside a rank.
pub fn sort_needs(needs: Vec<Item>) -> (r: Vec<Item>)
    ensures
        views(r@) == order::sorted(views(needs@), by_urgency()),
{
    let mut out: Vec<Item> = Vec::new();
    let ghost le = by_urgency();
    let ghost d = views(needs@);
    assert(views(out@) =~= order::sorted(d.take(0), le));
    for x in it: needs
        invariant
            it.seq() == needs@,
            d == views(needs@),
            le == by_urgency(),
            views(out@) == order::sorted(d.take(it.index()), le),
    {
        let ghost n = it.index();
        assert(d.take(n + 1).drop_last() =~= d.take(n));
        assert(d.take(n + 1).last() == x@);
        let ghost o = views(out@);
        let ghost xv = x@;
        let mut k: usize = out.len();
        while k > 0 && !(out[k - 1].rank < x.rank || (out[k - 1].rank == x.rank && out[k - 1].age
            >= x.age))
            invariant
                le == by_urgency(),
                o == views(out@),
                xv == x@,
                k <= out@.len(),
                forall|i: int| k <= i < o.len() ==> !le(#[trigger] o[i], xv),
            decreases k,
        {
            assert(o[k - 1] == out@[k - 1]@);
            k = k - 1;
        }
        proof {
            if k > 0 {
                assert(o[k - 1] == out@[k - 1]@);
            }
            order::insert_at(o, xv, le, k as int);
        }
        out.insert(k, x);
        assert(views(out@) =~= o.insert(k as int, xv));
    }
    assert(d.take(d.len() as int) =~= d);
    out
}

/// Which rows a view is narrowed to.
#[derive(Clone, Debug)]
pub struct Scope {
    /// Keep rows attributed to this tracker project key.
    pub project: Option<String>,
    /// Keep rows owned by this group root or one of its members.
    pub group: Option<String>,
}

pub open spec fn shares_name(a: Seq<Seq<char>>, b: Seq<Seq<char>>) -> bool {
    exists|i: int| 0 <= i < a.len() && b.contains(#[trigger] a[i])
}

/// A row is in scope: of the project, and of a member of the group.
pub open spec fn in_scope(
    i: ItemView,
    project: Option<Seq<char>>,
    members: Option<Seq<Seq<char>>>,
) -> bool {
    &&& project is Some ==> i.project == project->0
    &&& members is Some ==> shares_name(i.agents, members->0)
}

pub open spec fn scoped(project: Option<Seq<char>>, members: Option<Seq<Seq<char>>>) -> spec_fn(
    ItemView,
) -> bool {
    |i: ItemView| in_scope(i, project, members)
}

fn shares_name_of(a: &Vec<String>, b: &Vec<String>) -> (r: bool)
    ensures
        r == shares_name(a.deep_view(), b.deep_view()),
{
    let ghost d = a.deep_view();
    let mut i: usize = 0;
    while i < a.len()
        invariant
            d == a.deep_view(),
            i <= a@.len(),
            forall|j: int| 0 <= j < i ==> !b.deep_view().contains(#[trigger] d[j]),
        decreases a.len() - i,
    {
        assert(d[i as int] == a@[i as int]@);
        if text::has_name(b, a[i].as_str()) {
            return true;
        }
        i = i + 1;
    }
    false
}

/// Keeps the rows in scope, in their order.
pub fn scope_rows(items: Vec<Item>, project: Option<&str>, members: Option<&Vec<String>>) -> (r: Vec<
    Item,
>)
    ensures
        views(r@) == views(items@).filter(scoped(project.deep_view(), members.deep_view())),
{
    let ghost f = scoped(project.deep_view(), members.deep_view());
    let ghost d = views(items@);
    let mut r: Vec<Item> = Vec::new();
    assert(views(r@) =~= d.take(0).filter(f)) by {
        reveal(Seq::filter);
    }
    for x in it: items
        invariant
            it.seq() == items@,
            f == scoped(project.deep_view(), members.deep_view()),
            d == views(items@),
            views(r@) == d.take(it.index()).filter(f),
    {
        let ghost n = it.index();
        assert(d.take(n + 1).drop_last() =~= d.take(n));
        assert(d.take(n + 1).last() == x@);
        let project_hit = match project {
            Some(p) => text::eq(x.project.as_str(), p),
            None => true,
        };
        let group_hit = match members {
            Some(m) => shares_name_of(&x.agents, m),
            None => true,
        };
        let ghost r0 = r@;
        if project_hit && group_hit {
            r.push(x);
            proof {
                views_push(r0, x);
            }
        }
        assert(views(r@) == d.take(n + 1).filter(f)) by {
            reveal(Seq::filter);
        }
    }
    assert(d.take(d.len() as int) =~= d);
    r
}

/// The rows of a screen: each judged, one per subject, in scope, and by
/// urgency.
pub open spec fn screen(
    rows: Seq<ItemView>,
    owners: Owners,
    now: i64,
    escalate_after: i64,
    project: Option<Seq<char>>,
    members: Option<Seq<Seq<char>>>,
) -> Seq<ItemView> {
    let judged_rows = rows.map_values(|i: ItemView| classified(i, owners, now, escalate_after));
    order::sorted(merged_rows(judged_rows).filter(scoped(project, members)), by_urgency())
}

/// The rows of a screen, from those that the sources raised.
pub fn needs_me(
    rows: Vec<Item>,
    owners: &Owners,
    now: i64,
    escalate_after: i64,
    project: Option<&str>,
    members: Option<&Vec<String>>,
) -> (r: Vec<Item>)
    ensures
        views(r@) == screen(
            views(rows@),
            *owners,
            now,
            escalate_after,
            project.deep_view(),
            members.deep_view(),
        ),
{
    let judged_rows = classify_needs(rows, owners, now, escalate_after);
    assert(views(judged_rows@) =~= views(rows@).map_values(
        |i: ItemView| classified(i, *owners, now, escalate_after),
    ));
    sort_needs(scope_rows(merge_by_subject(judged_rows), project, members))
}

/// One agent, as group membership reads it.
#[derive(Debug)]
pub struct MemberRow {
    pub alias: String,
    pub upstream: Option<String>,
}

pub open spec fn in_group(a: MemberRow, root: Seq<char>) -> bool {
    a.alias@ == root || a.upstream.deep_view() == Some(root)
}

/// The aliases of a group, in the order of the agents.
pub open spec fn group_aliases(agents: Seq<MemberRow>, root: Seq<char>) -> Seq<Seq<char>>
    decreases agents.len(),
{
    if agents.len() == 0 {
        seq![]
    } else if in_group(agents.last(), root) {
        group_aliases(agents.drop_last(), root).push(agents.last().alias@)
    } else {
        group_aliases(agents.drop_last(), root)
    }
}

pub open spec fn registered(agents: Seq<MemberRow>, alias: Seq<char>) -> bool {
    exists|i: int| 0 <= i < agents.len() && (#[trigger] agents[i]).alias@ == alias
}

/// Why a group cannot be told.
pub open spec fn group_fault(reachable: bool, agents: Seq<MemberRow>, root: Seq<char>) -> Option<
    Seq<char>,
> {
    if !reachable {
        Some("cannot resolve group '"@ + root + "': daemon unreachable"@)
    } else if !registered(agents, root) {
        Some(
            "unknown group '"@ + root
                + "' — no registered agent has that alias (see `cadence agent list`)"@,
        )
    } else {
        None
    }
}

/// A group's aliases: the root and every agent whose upstream names it.
/// An alias that no agent carries is an error, not an empty screen.
pub fn group_members(reachable: bool, agents: &Vec<MemberRow>, root: &str) -> (r: Result<
    Vec<String>,
    String,
>)
    ensures
        match (r, group_fault(reachable, agents@, root@)) {
            (Ok(m), None) => m.deep_view() == group_aliases(agents@, root@),
            (Err(e), Some(f)) => e@ == f,
            _ => false,
        },
{
    if !reachable {
        return Err(
            "cannot resolve group '".to_owned().concat(root).concat("': daemon unreachable"),
        );
    }
    let mut known = false;
    let mut out: Vec<String> = Vec::new();
    let mut i: usize = 0;
    assert(out.deep_view() =~= group_aliases(agents@.take(0), root@));
    while i < agents.len()
        invariant
            i <= agents@.len(),
            known <==> exists|j: int| 0 <= j < i && (#[trigger] agents@[j]).alias@ == root@,
            out.deep_view() == group_aliases(agents@.take(i as int), root@),
        decreases agents.len() - i,
    {
        assert(agents@.take(i + 1).drop_last() =~= agents@.take(i as int));
        let ghost before = out.deep_view();
        let own = text::eq(agents[i].alias.as_str(), root);
        if own {
            known = true;
        }
        if own || text::opt_is(&agents[i].upstream, root) {
            out.push(agents[i].alias.clone());
            assert(out.deep_view() =~= before.push(agents@[i as int].alias@));
        }
        i = i + 1;
    }
    assert(agents@.take(i as int) =~= agents@);
    if !known {
        return Err(
            "unknown group '".to_owned().concat(root).concat(
                "' — no registered agent has that alias (see `cadence agent list`)",
            ),
        );
    }
    Ok(out)
}

// ---------- laws ----------

/// The groups hold different subjects, and each row stands in the group
/// of its subject.
pub open spec fn well_grouped(groups: Seq<Seq<ItemView>>) -> bool {
    &&& nonempty(groups)
    &&& forall|i: int, k: int|
        0 <= i < groups.len() && 0 <= k < groups[i].len() ==> same_subject(
            #[trigger] groups[i][k],
            groups[i][0],
        )
    &&& forall|i: int, j: int|
        0 <= i < j < groups.len() ==> !same_subject(
            #[trigger] groups[i][0],
            #[trigger] groups[j][0],
        )
}

pub open spec fn total_len(groups: Seq<Seq<ItemView>>) -> nat
    decreases groups.len(),
{
    if groups.len() == 0 {
        0
    } else {
        groups[0].len() + total_len(groups.drop_first())
    }
}

proof fn placed_keeps(groups: Seq<Seq<ItemView>>, x: ItemView)
    requires
        well_grouped(groups),
    ensures
        well_grouped(placed(groups, x)),
        total_len(placed(groups, x)) == total_len(groups) + 1,
        forall|i: int|
            0 <= i < placed(groups, x).len() ==> (same_subject(
                #[trigger] placed(groups, x)[i][0],
                x,
            ) || exists|j: int|
                0 <= j < groups.len() && same_subject(placed(groups, x)[i][0], #[trigger] groups[j][0])),
    decreases groups.len(),
{
    let r = placed(groups, x);
    if groups.len() == 0 {
        assert(r.drop_first() =~= seq![]);
        assert(total_len(r) == 1) by {
            reveal_with_fuel(total_len, 2);
        }
    } else if same_subject(groups[0][0], x) {
        assert(r.drop_first() =~= groups.drop_first());
        assert(r[0][0] == groups[0][0]);
        assert forall|i: int, k: int| 0 <= i < r.len() && 0 <= k < r[i].len() implies same_subject(
            #[trigger] r[i][k],
            r[i][0],
        ) by {
            if i > 0 {
                assert(r[i] == groups[i]);
                assert(same_subject(groups[i][k], groups[i][0]));
            } else if k < groups[0].len() {
                assert(r[0][k] == groups[0][k]);
                assert(same_subject(groups[0][k], groups[0][0]));
            }
        }
        assert forall|i: int, j: int| 0 <= i < j < r.len() implies !same_subject(
            #[trigger] r[i][0],
            #[trigger] r[j][0],
        ) by {
            assert(r[j] == groups[j]);
            assert(!same_subject(groups[i][0], groups[j][0]));
        }
        assert forall|i: int| 0 <= i < r.len() implies (same_subject(#[trigger] r[i][0], x) || exists|
            j: int,
        |
            0 <= j < groups.len() && same_subject(r[i][0], #[trigger] groups[j][0])) by {
            if i > 0 {
                assert(r[i] == groups[i]);
                assert(same_subject(r[i][0], groups[i][0]));
            }
        }
    } else {
        let t = groups.drop_first();
        assert(well_grouped(t)) by {
            assert forall|i: int, k: int| 0 <= i < t.len() && 0 <= k < t[i].len() implies same_subject(
                #[trigger] t[i][k],
                t[i][0],
            ) by {
                assert(same_subject(groups[i + 1][k], groups[i + 1][0]));
            }
            assert forall|i: int, j: int| 0 <= i < j < t.len() implies !same_subject(
                #[trigger] t[i][0],
                #[trigger] t[j][0],
            ) by {
                assert(!same_subject(groups[i + 1][0], groups[j + 1][0]));
            }
        }
        placed_keeps(t, x);
        let p = placed(t, x);
        assert(r.drop_first() =~= p);
        assert(r[0] == groups[0]);
        assert forall|i: int, k: int| 0 <= i < r.len() && 0 <= k < r[i].len() implies same_subject(
            #[trigger] r[i][k],
            r[i][0],
        ) by {
            if i > 0 {
                assert(r[i] == p[i - 1]);
                assert(same_subject(p[i - 1][k], p[i - 1][0]));
            } else {
                assert(same_subject(groups[0][k], groups[0][0]));
            }
        }
        assert forall|i: int, j: int| 0 <= i < j < r.len() implies !same_subject(
            #[trigger] r[i][0],
            #[trigger] r[j][0],
        ) by {
            assert(r[j] == p[j - 1]);
            if i > 0 {
                assert(r[i] == p[i - 1]);
                assert(!same_subject(p[i - 1][0], p[j - 1][0]));
            } else if same_subject(r[0][0], r[j][0]) {
                if same_subject(p[j - 1][0], x) {
                    assert(same_subject(groups[0][0], x));
                } else {
                    let m = choose|m: int|
                        0 <= m < t.len() && same_subject(p[j - 1][0], #[trigger] t[m][0]);
                    assert(!same_subject(groups[0][0], groups[m + 1][0]));
                }
            }
        }
        assert forall|i: int| 0 <= i < r.len() implies (same_subject(#[trigger] r[i][0], x) || exists|
            j: int,
        |
            0 <= j < groups.len() && same_subject(r[i][0], #[trigger] groups[j][0])) by {
            if i == 0 {
                assert(same_subject(r[0][0], groups[0][0]));
            } else {
                assert(r[i] == p[i - 1]);
                if !same_subject(p[i - 1][0], x) {
                    let m = choose|m: int|
                        0 <= m < t.len() && same_subject(p[i - 1][0], #[trigger] t[m][0]);
                    assert(same_subject(r[i][0], groups[m + 1][0]));
                }
            }
        }
    }
}

/// One row per subject: the groups that rows merge in hold different
/// subjects and, together, every row.
pub proof fn one_row_per_subject(items: Seq<ItemView>)
    ensures
        well_grouped(grouped(items)),
        total_len(grouped(items)) == items.len(),
    decreases items.len(),
{
    if items.len() > 0 {
        one_row_per_subject(items.drop_last());
        placed_keeps(grouped(items.drop_last()), items.last());
    }
}

/// A merged row is for the most urgent audience among its causes, and it
/// lists one cause for each row that it stands for.
pub proof fn merged_row_is_most_urgent(group: Seq<ItemView>)
    requires
        group.len() > 0,
    ensures
        merged(group).causes.len() == group.len(),
        forall|i: int|
            0 <= i < group.len() ==> urgency(merged(group).audience) <= urgency(
                (#[trigger] merged(group).causes[i]).audience,
            ),
{
    let g = order::sorted(group, by_rank());
    order::sorted_is_a_sort(group, by_rank());
    urgent_bound(g);
    assert forall|i: int| 0 <= i < group.len() implies urgency(merged(group).audience) <= urgency(
        (#[trigger] merged(group).causes[i]).audience,
    ) by {
        assert(merged(group).causes[i] == cause_of(g[i]));
    }
}

proof fn urgent_bound(g: Seq<ItemView>)
    requires
        g.len() > 0,
    ensures
        forall|i: int|
            0 <= i < g.len() ==> urgency(most_urgent(g).audience) <= urgency(
                (#[trigger] g[i]).audience,
            ),
    decreases g.len(),
{
    if g.len() > 1 {
        let t = g.drop_last();
        urgent_bound(t);
        assert forall|i: int| 0 <= i < g.len() implies urgency(most_urgent(g).audience) <= urgency(
            (#[trigger] g[i]).audience,
        ) by {
            if i < t.len() {
                assert(urgency(most_urgent(t).audience) <= urgency(t[i].audience));
            }
        }
    }
}

/// A row without a clock escalates by its owner only, never by age.
pub proof fn no_clock_no_escalation_by_age(
    it: ItemView,
    owners: Owners,
    now: i64,
    later: i64,
    escalate_after: i64,
)
    requires
        it.since is None,
    ensures
        classified(it, owners, now, escalate_after) == classified(it, owners, later, escalate_after),
{
}

/// The order of the rows is total: sorting loses no row and leaves no
/// less urgent row before a more urgent one.
pub proof fn rows_stand_by_urgency(needs: Seq<ItemView>)
    ensures
        order::in_order(order::sorted(needs, by_urgency()), by_urgency()),
        order::sorted(needs, by_urgency()).to_multiset() == needs.to_multiset(),
{
    let le = by_urgency();
    assert(order::total(le));
    order::sorted_is_a_sort(needs, le);
}

} // verus!
