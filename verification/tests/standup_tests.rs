use std::str::FromStr;

use deskflow::slack_message::StandupMessage;
use deskflow::stand_up::{
    project_to_id, APIResponse, Filter, FilterCondition, Name, ProjectMapping, Properties, Status,
    StatusInfo, Task, TaskStatus, TaskToAdd, Title, TitleTask,
};

fn task(name: &str, status: Status) -> Task {
    Task {
        properties: Properties {
            name: Name {
                title: vec![Title {
                    plain_text: name.to_string(),
                    text: TitleTask { content: name.to_string() },
                }],
            },
            status: StatusInfo { status: TaskStatus { name: status } },
            project: deskflow::stand_up::Project {
                relation_type: "relation".to_string(),
                relation: Vec::new(),
                has_more: false,
            },
        },
    }
}

#[test]
fn status_parses_without_regard_to_case() {
    assert_eq!(Status::parse("done"), Some(Status::Done));
    assert_eq!(Status::parse("DONE"), Some(Status::Done));
    assert_eq!(Status::parse("In Progress"), Some(Status::InProgress));
    assert_eq!(Status::parse("in progress"), Some(Status::InProgress));
    assert_eq!(Status::parse("To Do"), Some(Status::ToDo));
    assert_eq!(Status::parse("finished"), None);
    assert_eq!(Status::parse(""), None);
}

#[test]
fn status_from_str_matches_parse() {
    assert_eq!(Status::from_str("done"), Ok(Status::Done));
    assert!(Status::from_str("nope").is_err());
}

#[test]
fn status_labels_match_the_remote_system() {
    assert_eq!(Status::InProgress.to_string(), "In progress");
    assert_eq!(Status::Done.to_string(), "Done");
    assert_eq!(Status::ToDo.to_string(), "To Do");
}

#[test]
fn timelog_lines_hold_done_and_wip_tasks() {
    let response = APIResponse {
        results: vec![
            task("Ship the report", Status::Done),
            task("Review the draft", Status::InProgress),
            task("Plan the sprint", Status::ToDo),
        ],
    };
    assert_eq!(response.tasks_for_timelog(), " • Ship the report\n • WIP Review the draft");
}

#[test]
fn timelog_of_no_tasks_is_empty() {
    let response = APIResponse { results: Vec::new() };
    assert_eq!(response.tasks_for_timelog(), "");
}

#[test]
fn standup_message_carries_all_sections() {
    let response = APIResponse {
        results: vec![
            task("Ship the report", Status::Done),
            task("Review the draft", Status::InProgress),
            task("Plan the sprint", Status::ToDo),
        ],
    };
    let text = response.tasks_for_standup();
    assert!(text.starts_with("Stand-up "));
    assert!(text.ends_with(
        "\nToday\n • Ship the report\n • WIP Review the draft\nTomorrow\n • Plan the sprint\nBlocker\n • None"
    ));
}

#[test]
fn filter_for_date_has_the_fixed_query_shape() {
    let f = Filter::for_date(deskflow::dates::Ymd { year: 2026, month: 10, day: 9 });
    assert_eq!(f.filter.and.len(), 2);
    match &f.filter.and[0] {
        FilterCondition::Or(conds) => {
            assert_eq!(conds.len(), 3);
            for c in conds {
                assert_eq!(c.property, "Status");
            }
            assert_eq!(conds[0].status.equals, Status::InProgress);
            assert_eq!(conds[1].status.equals, Status::Done);
            assert_eq!(conds[2].status.equals, Status::ToDo);
        }
        _ => panic!("first condition must be the status disjunction"),
    }
    match &f.filter.and[1] {
        FilterCondition::LastEditedTime(c) => {
            assert_eq!(c.property, "Last edited time");
            assert_eq!(c.last_edited_time.date, "2026-10-09");
        }
        _ => panic!("second condition must be the edit-time bound"),
    }
    assert_eq!(f.sorts.len(), 1);
    assert_eq!(f.sorts[0].property, "Last edited time");
    assert_eq!(f.sorts[0].direction, "ascending");
}

#[test]
fn filter_new_uses_todays_date() {
    let f = Filter::new();
    match &f.filter.and[1] {
        FilterCondition::LastEditedTime(c) => {
            let date = &c.last_edited_time.date;
            assert_eq!(date.len(), 10);
            let bytes = date.as_bytes();
            assert_eq!(bytes[4], b'-');
            assert_eq!(bytes[7], b'-');
        }
        _ => panic!("second condition must be the edit-time bound"),
    }
}

#[test]
fn project_lookup_ignores_case_of_the_query() {
    let mapping = ProjectMapping {
        mapping: vec![
            ("alpha".to_string(), "id-alpha".to_string()),
            ("beta".to_string(), "id-beta".to_string()),
        ],
    };
    assert_eq!(project_to_id(&mapping, "Alpha"), Some("id-alpha".to_string()));
    assert_eq!(project_to_id(&mapping, "BETA"), Some("id-beta".to_string()));
    assert_eq!(project_to_id(&mapping, "gamma"), None);
}

#[test]
fn task_to_add_carries_title_status_and_project() {
    let t = TaskToAdd::new(
        "Write the notes".to_string(),
        "Done".to_string(),
        "db-1".to_string(),
        "id-alpha".to_string(),
    );
    assert_eq!(t.properties.name.title.len(), 1);
    assert_eq!(t.properties.name.title[0].plain_text, "Write the notes");
    assert_eq!(t.properties.name.title[0].text.content, "Write the notes");
    assert_eq!(t.properties.status.status.name, Status::Done);
    assert_eq!(t.properties.project.relation_type, "relation");
    assert_eq!(t.properties.project.relation.len(), 1);
    assert_eq!(t.properties.project.relation[0].id, "id-alpha");
    assert!(!t.properties.project.has_more);
    assert_eq!(t.parent.database_id, "db-1");
}

#[test]
fn standup_message_has_one_markdown_section() {
    let m = StandupMessage::new("general".to_string(), "hello".to_string());
    assert_eq!(m.blocks.len(), 1);
    assert_eq!(m.blocks[0].block_type, "section");
    assert_eq!(m.blocks[0].text.text, "hello");
    assert_eq!(m.blocks[0].text.message_type, "mrkdwn");
    assert_eq!(m.channel, "general");
    assert!(m.as_user);
    assert!(m.mrkdwn);
    assert_eq!(m.text, "hello");
}
