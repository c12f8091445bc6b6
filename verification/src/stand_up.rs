use vstd::prelude::*;

use crate::clock::today_ymd;
use crate::dates::{day_label, day_label_of, format_ymd_dashed, ymd_dashed, ymd_valid, Ymd};
use vstd::string::StrSliceExecFns;
use vstd::string::StringExecFns;

verus! {

// ---------------------------------------------------------------------------
// Case-insensitive matching over ASCII letters.
// ---------------------------------------------------------------------------

pub open spec fn lower_char(c: char) -> char {
    if 65 <= c as int <= 90 {
        (c as int + 32) as char
    } else {
        c
    }
}

pub open spec fn lower(s: Seq<char>) -> Seq<char> {
    s.map_values(|c: char| lower_char(c))
}

/// Whether `s`, lowered letter by letter, reads exactly as `t`.
fn eq_lower(s: &str, t: &str) -> (b: bool)
    ensures
        b == (lower(s@) == t@),
{
    let n = s.unicode_len();
    let m = t.unicode_len();
    if n != m {
        proof {
            assert(lower(s@).len() == s@.len());
        }
        return false;
    }
    let mut i: usize = 0;
    while i < n
        invariant
            i <= n,
            n == s@.len(),
            n == t@.len(),
            forall|k: int| 0 <= k < i ==> lower(s@)[k] == t@[k],
        decreases n - i,
    {
        let cs = s.get_char(i) as u32;
        let lc: u32 = if 65 <= cs && cs <= 90 {
            cs + 32
        } else {
            cs
        };
        let ct = t.get_char(i) as u32;
        proof {
            assert(lower(s@)[i as int] == lower_char(s@[i as int]));
            assert(lower_char(s@[i as int]) as int == lc as int);
        }
        if lc != ct {
            proof {
                assert(lower(s@)[i as int] != t@[i as int]);
            }
            return false;
        }
        i = i + 1;
    }
    proof {
        assert(lower(s@) =~= t@);
    }
    true
}

// ---------------------------------------------------------------------------
// Task status.
// ---------------------------------------------------------------------------

#[derive(Debug, Clone, Copy, PartialEq, Eq, Structural)]
pub enum Status {
    InProgress,
    Done,
    ToDo,
}

/// The label the remote system uses for each status.
pub open spec fn status_label(s: Status) -> Seq<char> {
    match s {
        Status::InProgress => "In progress"@,
        Status::Done => "Done"@,
        Status::ToDo => "To Do"@,
    }
}

/// The status a user-supplied word names, matched without regard to case.
pub open spec fn spec_status_of(s: Seq<char>) -> Option<Status> {
    if lower(s) == "in progress"@ {
        Some(Status::InProgress)
    } else if lower(s) == "done"@ {
        Some(Status::Done)
    } else if lower(s) == "to do"@ {
        Some(Status::ToDo)
    } else {
        None
    }
}

impl Status {
    pub fn parse(s: &str) -> (r: Option<Status>)
        ensures
            r == spec_status_of(s@),
    {
        proof {
            reveal_strlit("in progress");
            reveal_strlit("done");
            reveal_strlit("to do");
        }
        if eq_lower(s, "in progress") {
            Some(Status::InProgress)
        } else if eq_lower(s, "done") {
            Some(Status::Done)
        } else if eq_lower(s, "to do") {
            Some(Status::ToDo)
        } else {
            None
        }
    }

    pub fn to_string(&self) -> (r: String)
        ensures
            r@ == status_label(*self),
    {
        match self {
            Status::InProgress => "In progress".to_owned(),
            Status::Done => "Done".to_owned(),
            Status::ToDo => "To Do".to_owned(),
        }
    }
}

impl core::str::FromStr for Status {
    type Err = ();

    fn from_str(s: &str) -> Result<Status, ()> {
        match Status::parse(s) {
            Option::Some(v) => Ok(v),
            Option::None => Err(()),
        }
    }
}

// ---------------------------------------------------------------------------
// The task shapes of the remote workspace.
// ---------------------------------------------------------------------------

pub struct APIResponse {
    pub results: Vec<Task>,
}

pub struct Task {
    pub properties: Properties,
}

pub struct Properties {
    pub name: Name,
    pub status: StatusInfo,
    pub project: Project,
}

pub struct StatusInfo {
    pub status: TaskStatus,
}

pub struct TaskStatus {
    pub name: Status,
}

pub struct Name {
    pub title: Vec<Title>,
}

pub struct Title {
    pub plain_text: String,
    pub text: TitleTask,
}

pub struct TitleTask {
    pub content: String,
}

pub struct Project {
    pub relation_type: String,
    pub relation: Vec<Relation>,
    pub has_more: bool,
}

pub struct Relation {
    pub id: String,
}

pub struct TaskToAdd {
    pub properties: Properties,
    pub parent: Parent,
}

pub struct Parent {
    pub database_id: String,
}

/// A task carries at least one title fragment; the first is its name.
pub open spec fn wf_task(t: Task) -> bool {
    t.properties.name.title@.len() > 0
}

pub open spec fn task_name(t: Task) -> Seq<char> {
    t.properties.name.title@[0].plain_text@
}

pub open spec fn task_status(t: Task) -> Status {
    t.properties.status.status.name
}

// ---------------------------------------------------------------------------
// Classifying tasks into today's and tomorrow's stand-up lines.
// ---------------------------------------------------------------------------

/// Today's stand-up lines: each finished task by name, each task in
/// progress with a WIP mark.
pub open spec fn today_lines(ts: Seq<Task>) -> Seq<Seq<char>>
    decreases ts.len(),
{
    if ts.len() == 0 {
        Seq::empty()
    } else {
        let rest = today_lines(ts.drop_first());
        match task_status(ts[0]) {
            Status::Done => seq![task_name(ts[0])] + rest,
            Status::InProgress => seq!["WIP "@ + task_name(ts[0])] + rest,
            Status::ToDo => rest,
        }
    }
}

/// Tomorrow's stand-up lines: the tasks still to do, by name.
pub open spec fn tomorrow_lines(ts: Seq<Task>) -> Seq<Seq<char>>
    decreases ts.len(),
{
    if ts.len() == 0 {
        Seq::empty()
    } else {
        let rest = tomorrow_lines(ts.drop_first());
        match task_status(ts[0]) {
            Status::ToDo => seq![task_name(ts[0])] + rest,
            _ => rest,
        }
    }
}

pub open spec fn today_line_of(t: Task) -> Seq<Seq<char>> {
    match task_status(t) {
        Status::Done => seq![task_name(t)],
        Status::InProgress => seq!["WIP "@ + task_name(t)],
        Status::ToDo => Seq::empty(),
    }
}

pub open spec fn tomorrow_line_of(t: Task) -> Seq<Seq<char>> {
    match task_status(t) {
        Status::ToDo => seq![task_name(t)],
        _ => Seq::empty(),
    }
}

proof fn lemma_today_lines_push(ts: Seq<Task>, t: Task)
    ensures
        today_lines(ts.push(t)) == today_lines(ts) + today_line_of(t),
    decreases ts.len(),
{
    let u = ts.push(t);
    if ts.len() == 0 {
        assert(u[0] == t);
        assert(u.drop_first() =~= Seq::<Task>::empty());
        assert(today_lines(u.drop_first()) == Seq::<Seq<char>>::empty());
        assert(today_lines(u) =~= today_lines(ts) + today_line_of(t));
    } else {
        assert(u[0] == ts[0]);
        assert(u.drop_first() =~= ts.drop_first().push(t));
        lemma_today_lines_push(ts.drop_first(), t);
        assert(today_lines(u.drop_first()) == today_lines(ts.drop_first()) + today_line_of(t));
        assert(today_lines(u) =~= today_lines(ts) + today_line_of(t));
    }
}

proof fn lemma_tomorrow_lines_push(ts: Seq<Task>, t: Task)
    ensures
        tomorrow_lines(ts.push(t)) == tomorrow_lines(ts) + tomorrow_line_of(t),
    decreases ts.len(),
{
    let u = ts.push(t);
    if ts.len() == 0 {
        assert(u[0] == t);
        assert(u.drop_first() =~= Seq::<Task>::empty());
        assert(tomorrow_lines(u.drop_first()) == Seq::<Seq<char>>::empty());
        assert(tomorrow_lines(u) =~= tomorrow_lines(ts) + tomorrow_line_of(t));
    } else {
        assert(u[0] == ts[0]);
        assert(u.drop_first() =~= ts.drop_first().push(t));
        lemma_tomorrow_lines_push(ts.drop_first(), t);
        assert(tomorrow_lines(u.drop_first()) == tomorrow_lines(ts.drop_first())
            + tomorrow_line_of(t));
        assert(tomorrow_lines(u) =~= tomorrow_lines(ts) + tomorrow_line_of(t));
    }
}

pub open spec fn str_views(v: Seq<String>) -> Seq<Seq<char>> {
    v.map_values(|s: String| s@)
}

/// The bullet list of the stand-up message: each line marked and indented,
/// lines separated by line breaks.
pub open spec fn bullets(lines: Seq<Seq<char>>) -> Seq<char>
    decreases lines.len(),
{
    if lines.len() == 0 {
        Seq::empty()
    } else if lines.len() == 1 {
        " • "@ + lines[0]
    } else {
        " • "@ + lines[0] + "\n"@ + bullets(lines.drop_first())
    }
}

proof fn lemma_bullets_push(lines: Seq<Seq<char>>, x: Seq<char>)
    ensures
        bullets(lines.push(x)) == if lines.len() == 0 {
            " • "@ + x
        } else {
            bullets(lines) + "\n"@ + (" • "@ + x)
        },
    decreases lines.len(),
{
    let u = lines.push(x);
    if lines.len() == 0 {
        assert(u.len() == 1 && u[0] == x);
    } else if lines.len() == 1 {
        assert(u.len() == 2);
        assert(u[0] == lines[0]);
        assert(u.drop_first() =~= Seq::<Seq<char>>::empty().push(x));
        assert(u.drop_first().len() == 1 && u.drop_first()[0] == x);
        assert(bullets(u.drop_first()) == " • "@ + x);
        assert(bullets(u) =~= bullets(lines) + "\n"@ + (" • "@ + x));
    } else {
        assert(u[0] == lines[0]);
        assert(u.drop_first() =~= lines.drop_first().push(x));
        lemma_bullets_push(lines.drop_first(), x);
        assert(bullets(u.drop_first()) == bullets(lines.drop_first()) + "\n"@ + (" • "@ + x));
        assert(bullets(u) =~= bullets(lines) + "\n"@ + (" • "@ + x));
    }
}

/// The whole stand-up message for a day heading and a task list.
pub open spec fn standup_text(day_str: Seq<char>, ts: Seq<Task>) -> Seq<char> {
    "Stand-up "@ + day_str + "\nToday\n"@ + bullets(today_lines(ts)) + "\nTomorrow\n"@ + bullets(
        tomorrow_lines(ts),
    ) + "\nBlocker\n • None"@
}

impl APIResponse {
    fn classify_tasks(&self) -> (r: (Vec<String>, Vec<String>))
        requires
            forall|i: int| 0 <= i < self.results@.len() ==> wf_task(#[trigger] self.results@[i]),
        ensures
            str_views(r.0@) == today_lines(self.results@),
            str_views(r.1@) == tomorrow_lines(self.results@),
    {
        let ghost ts: Seq<Task> = self.results@;
        let mut today: Vec<String> = Vec::new();
        let mut tomorrow: Vec<String> = Vec::new();
        let n = self.results.len();
        let mut i: usize = 0;
        proof {
            assert(ts.take(0) =~= Seq::<Task>::empty());
            assert(str_views(today@) =~= today_lines(ts.take(0)));
            assert(str_views(tomorrow@) =~= tomorrow_lines(ts.take(0)));
        }
        while i < n
            invariant
                i <= n,
                n == self.results@.len(),
                ts == self.results@,
                forall|k: int| 0 <= k < ts.len() ==> wf_task(#[trigger] ts[k]),
                str_views(today@) == today_lines(ts.take(i as int)),
                str_views(tomorrow@) == tomorrow_lines(ts.take(i as int)),
            decreases n - i,
        {
            let ghost today0: Seq<String> = today@;
            let ghost tomorrow0: Seq<String> = tomorrow@;
            let task = &self.results[i];
            let name = task.properties.name.title[0].plain_text.clone();
            match task.properties.status.status.name {
                Status::Done => {
                    today.push(name);
                },
                Status::InProgress => {
                    let mut wip = "WIP ".to_owned();
                    wip.append(name.as_str());
                    today.push(wip);
                },
                Status::ToDo => {
                    tomorrow.push(name);
                },
            }
            proof {
                lemma_today_lines_push(ts.take(i as int), ts[i as int]);
                lemma_tomorrow_lines_push(ts.take(i as int), ts[i as int]);
                assert(ts.take(i as int).push(ts[i as int]) =~= ts.take(i as int + 1));
                assert(str_views(today@) =~= today_lines(ts.take(i as int + 1)));
                assert(str_views(tomorrow@) =~= tomorrow_lines(ts.take(i as int + 1)));
            }
            i = i + 1;
        }
        proof {
            assert(ts.take(n as int) =~= ts);
        }
        (today, tomorrow)
    }

    fn format_tasks(&self, tasks: Vec<String>) -> (r: String)
        ensures
            r@ == bullets(str_views(tasks@)),
    {
        let ghost lines: Seq<Seq<char>> = str_views(tasks@);
        let mut out = String::new();
        let n = tasks.len();
        let mut i: usize = 0;
        proof {
            assert(lines.take(0) =~= Seq::<Seq<char>>::empty());
        }
        while i < n
            invariant
                i <= n,
                n == tasks@.len(),
                lines == str_views(tasks@),
                out@ == bullets(lines.take(i as int)),
            decreases n - i,
        {
            if i > 0 {
                out.append("\n");
            }
            out.append(" • ");
            out.append(tasks[i].as_str());
            proof {
                lemma_bullets_push(lines.take(i as int), lines[i as int]);
                assert(lines.take(i as int).push(lines[i as int]) =~= lines.take(i as int + 1));
                assert(out@ =~= bullets(lines.take(i as int + 1)));
            }
            i = i + 1;
        }
        proof {
            assert(lines.take(n as int) =~= lines);
        }
        out
    }

    /// The full stand-up message for today's date and these tasks.
    pub fn tasks_for_standup(&self) -> (r: String)
        requires
            forall|i: int| 0 <= i < self.results@.len() ==> wf_task(#[trigger] self.results@[i]),
        ensures
            exists|m: int, d: int|
                1 <= m <= 12 && 1 <= d <= 31 && r@ == standup_text(
                    day_label_of(m, d),
                    self.results@,
                ),
    {
        let heading = formatted_today();
        let ghost (m, d): (int, int) = choose|m: int, d: int|
            1 <= m <= 12 && 1 <= d <= 31 && heading@ == #[trigger] day_label_of(m, d);
        let (today_tasks, tomorrow_tasks) = self.classify_tasks();
        let today_str = self.format_tasks(today_tasks);
        let tomorrow_str = self.format_tasks(tomorrow_tasks);
        let mut out = "Stand-up ".to_owned();
        out.append(heading.as_str());
        out.append("\nToday\n");
        out.append(today_str.as_str());
        out.append("\nTomorrow\n");
        out.append(tomorrow_str.as_str());
        out.append("\nBlocker\n • None");
        proof {
            assert(out@ =~= standup_text(day_label_of(m, d), self.results@));
        }
        out
    }

    /// The bullet list of today's work alone, for the timelog sheet.
    pub fn tasks_for_timelog(&self) -> (r: String)
        requires
            forall|i: int| 0 <= i < self.results@.len() ==> wf_task(#[trigger] self.results@[i]),
        ensures
            r@ == bullets(today_lines(self.results@)),
    {
        let (today_tasks, _tomorrow_tasks) = self.classify_tasks();
        self.format_tasks(today_tasks)
    }
}

/// Today's stand-up heading, from the clock.
fn formatted_today() -> (r: String)
    ensures
        exists|m: int, d: int| 1 <= m <= 12 && 1 <= d <= 31 && r@ == day_label_of(m, d),
{
    let (_year, m, d) = today_ymd();
    let r = day_label(m as u8, d as u8);
    proof {
        assert(r@ == day_label_of(m as int, d as int));
    }
    r
}

// ---------------------------------------------------------------------------
// The task query filter.
// ---------------------------------------------------------------------------

pub struct Filter {
    pub filter: FilterDetails,
    pub sorts: Vec<Sort>,
}

pub struct FilterDetails {
    pub and: Vec<FilterCondition>,
}

pub struct Sort {
    pub property: String,
    pub direction: String,
}

pub enum FilterCondition {
    Or(Vec<StatusCondition>),
    LastEditedTime(LastEditedTimeCondition),
}

pub struct StatusCondition {
    pub property: String,
    pub status: StatusEquals,
}

pub struct StatusEquals {
    pub equals: Status,
}

pub struct LastEditedTimeCondition {
    pub property: String,
    pub last_edited_time: OnOrAfter,
}

pub struct OnOrAfter {
    pub date: String,
}

pub open spec fn status_cond(c: StatusCondition, s: Status) -> bool {
    c.property@ == "Status"@ && c.status.equals == s
}

/// The fixed shape of the task query: every status, edited on `date` or
/// later, sorted by the last edit, ascending.
pub open spec fn filter_shape(f: Filter, date: Seq<char>) -> bool {
    &&& f.filter.and@.len() == 2
    &&& (f.filter.and@[0] matches FilterCondition::Or(v) && {
        &&& v@.len() == 3
        &&& status_cond(v@[0], Status::InProgress)
        &&& status_cond(v@[1], Status::Done)
        &&& status_cond(v@[2], Status::ToDo)
    })
    &&& (f.filter.and@[1] matches FilterCondition::LastEditedTime(c) && c.property@
        == "Last edited time"@ && c.last_edited_time.date@ == date)
    &&& f.sorts@.len() == 1
    &&& f.sorts@[0].property@ == "Last edited time"@
    &&& f.sorts@[0].direction@ == "ascending"@
}

impl Filter {
    /// The task query for a given day.
    pub fn for_date(today: Ymd) -> (f: Filter)
        requires
            ymd_valid(today),
        ensures
            filter_shape(f, ymd_dashed(today)),
    {
        let mut or_conds: Vec<StatusCondition> = Vec::new();
        or_conds.push(
            StatusCondition {
                property: "Status".to_owned(),
                status: StatusEquals { equals: Status::InProgress },
            },
        );
        or_conds.push(
            StatusCondition {
                property: "Status".to_owned(),
                status: StatusEquals { equals: Status::Done },
            },
        );
        or_conds.push(
            StatusCondition {
                property: "Status".to_owned(),
                status: StatusEquals { equals: Status::ToDo },
            },
        );
        let mut and_conds: Vec<FilterCondition> = Vec::new();
        and_conds.push(FilterCondition::Or(or_conds));
        and_conds.push(
            FilterCondition::LastEditedTime(
                LastEditedTimeCondition {
                    property: "Last edited time".to_owned(),
                    last_edited_time: OnOrAfter { date: format_ymd_dashed(today) },
                },
            ),
        );
        let mut sorts: Vec<Sort> = Vec::new();
        sorts.push(
            Sort { property: "Last edited time".to_owned(), direction: "ascending".to_owned() },
        );
        Filter { filter: FilterDetails { and: and_conds }, sorts }
    }

    /// The task query for today. A clock year outside the four-digit range
    /// is clamped into it before formatting.
    pub fn new() -> (f: Filter)
        ensures
            exists|dt: Ymd| ymd_valid(dt) && filter_shape(f, ymd_dashed(dt)),
    {
        let (y, m, d) = today_ymd();
        let yc: i32 = if y < 0 {
            0
        } else if y > 9999 {
            9999
        } else {
            y
        };
        let date = Ymd::checked(yc, m, d).unwrap();
        let f = Filter::for_date(date);
        proof {
            assert(ymd_valid(date) && filter_shape(f, ymd_dashed(date)));
        }
        f
    }
}

// ---------------------------------------------------------------------------
// Adding a task.
// ---------------------------------------------------------------------------

/// The project names the user may write, each mapped to a project id.
pub struct ProjectMapping {
    pub mapping: Vec<(String, String)>,
}

/// The id of the first entry whose name reads as `key`.
pub open spec fn spec_lookup(m: Seq<(String, String)>, key: Seq<char>) -> Option<Seq<char>>
    decreases m.len(),
{
    if m.len() == 0 {
        None
    } else if m[0].0@ == key {
        Some(m[0].1@)
    } else {
        spec_lookup(m.drop_first(), key)
    }
}

/// The project id a user-supplied project name resolves to, matched without
/// regard to case.
pub fn project_to_id(mapping: &ProjectMapping, project: &str) -> (r: Option<String>)
    ensures
        match r {
            Option::Some(v) => (spec_lookup(mapping.mapping@, lower(project@)) matches Some(x)
                && v@ == x),
            Option::None => spec_lookup(mapping.mapping@, lower(project@)) is None,
        },
{
    let ghost entries: Seq<(String, String)> = mapping.mapping@;
    let ghost key: Seq<char> = lower(project@);
    let n = mapping.mapping.len();
    let mut i: usize = 0;
    proof {
        assert(entries.skip(0) =~= entries);
    }
    while i < n
        invariant
            i <= n,
            n == entries.len(),
            entries == mapping.mapping@,
            key == lower(project@),
            spec_lookup(entries, key) == spec_lookup(entries.skip(i as int), key),
        decreases n - i,
    {
        proof {
            assert(entries.skip(i as int)[0] == entries[i as int]);
            assert(entries.skip(i as int).drop_first() =~= entries.skip(i as int + 1));
        }
        if eq_lower(project, mapping.mapping[i].0.as_str()) {
            return Some(mapping.mapping[i].1.clone());
        }
        i = i + 1;
    }
    proof {
        assert(entries.skip(n as int) =~= Seq::<(String, String)>::empty());
    }
    None
}

impl TaskToAdd {
    /// The request body that adds one task: the title in both title slots,
    /// the parsed status, the project relation, and the parent database.
    pub fn new(task: String, status: String, database_id: String, project_id: String) -> (t:
        TaskToAdd)
        requires
            spec_status_of(status@) is Some,
        ensures
            t.properties.name.title@.len() == 1,
            t.properties.name.title@[0].plain_text@ == task@,
            t.properties.name.title@[0].text.content@ == task@,
            t.properties.status.status.name == spec_status_of(status@)->Some_0,
            t.properties.project.relation_type@ == "relation"@,
            t.properties.project.relation@.len() == 1,
            t.properties.project.relation@[0].id@ == project_id@,
            t.properties.project.has_more == false,
            t.parent.database_id@ == database_id@,
    {
        let st = Status::parse(status.as_str()).unwrap();
        let mut title: Vec<Title> = Vec::new();
        title.push(
            Title { plain_text: task.clone(), text: TitleTask { content: task } },
        );
        let mut relation: Vec<Relation> = Vec::new();
        relation.push(Relation { id: project_id });
        TaskToAdd {
            properties: Properties {
                name: Name { title },
                status: StatusInfo { status: TaskStatus { name: st } },
                project: Project {
                    relation_type: "relation".to_owned(),
                    relation,
                    has_more: false,
                },
            },
            parent: Parent { database_id },
        }
    }
}

} // verus!
