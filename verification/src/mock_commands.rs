//! The commands that manage mock rules and response fixtures: what each
//! runs against the mock stores, and what it publishes to the capture
//! engine afterwards.
//!
//! A command that changes the rules runs its statement, then reads the
//! rules back and publishes the document of the enabled ones
//! (`published_rules`); writing that document to disk is the caller's.
use vstd::prelude::*;

use crate::mocks::{MOCK_SCHEMA_VERSION, MockFixture, MockRule, MockRulesDocument, enabled_rules, ordered_rules};
use crate::model::AppError;
use crate::storage::{
    DELETE_FIXTURE_SQL, DELETE_RULE_SQL, DISABLE_ALL_RULES_SQL, LIST_FIXTURES_SQL, LIST_RULES_SQL, MockDatabase,
    MockFixtureDatabase, SET_RULE_ENABLED_SQL, SET_RULE_PRIORITY_SQL, SqlParam, SqlStatement, flag_param, runs,
    text_param,
};

verus! {

/// What a command that changes the rules runs: the change, then the query
/// for the rules it publishes.
pub struct RuleChange {
    pub change: SqlStatement,
    pub republish: SqlStatement,
}

/// The document a command publishes once the rules are read back: the
/// enabled ones, in the order they apply, with mocking on.
pub fn published_rules(rules: Vec<MockRule>) -> (d: MockRulesDocument)
    ensures
        d.schema_version == MOCK_SCHEMA_VERSION,
        d.enabled,
        d.rules@ == ordered_rules(enabled_rules(rules@)),
{
    MockRulesDocument::active(rules, true)
}

/// The statements of a command that changes the rules.
fn rule_change(database: &MockDatabase, change: SqlStatement) -> (r: RuleChange)
    ensures
        r.change == change,
        runs(r.republish, LIST_RULES_SQL, seq![]),
{
    RuleChange { change, republish: database.list_rules() }
}

/// Turning a rule on or off.
pub fn set_mock_rule_enabled(database: &MockDatabase, id: &str, enabled: bool) -> (r: RuleChange)
    ensures
        runs(r.change, SET_RULE_ENABLED_SQL, seq![text_param(id@), flag_param(enabled)]),
        runs(r.republish, LIST_RULES_SQL, seq![]),
{
    rule_change(database, database.set_enabled(id, enabled))
}

/// Moving a rule to another place in the order rules apply in.
pub fn set_mock_rule_priority(database: &MockDatabase, id: &str, priority: i64) -> (r: RuleChange)
    ensures
        runs(r.change, SET_RULE_PRIORITY_SQL, seq![text_param(id@), SqlParam::Integer(priority as int)]),
        runs(r.republish, LIST_RULES_SQL, seq![]),
{
    rule_change(database, database.set_priority(id, priority))
}

/// Removing a rule.
pub fn delete_mock_rule(database: &MockDatabase, id: &str) -> (r: RuleChange)
    ensures
        runs(r.change, DELETE_RULE_SQL, seq![text_param(id@)]),
        runs(r.republish, LIST_RULES_SQL, seq![]),
{
    rule_change(database, database.delete_rule(id))
}

/// Turning every rule off; the command answers with the count of rows the
/// change reports.
pub fn disable_all_mocks(database: &MockDatabase) -> (r: RuleChange)
    ensures
        runs(r.change, DISABLE_ALL_RULES_SQL, seq![]),
        runs(r.republish, LIST_RULES_SQL, seq![]),
{
    rule_change(database, database.disable_all())
}

/// The query of the fixture listing.
pub fn list_mock_fixtures(database: &MockFixtureDatabase) -> (st: SqlStatement)
    ensures
        runs(st, LIST_FIXTURES_SQL, seq![]),
{
    database.list()
}

/// The statement that removes a fixture.
pub fn delete_mock_fixture(database: &MockFixtureDatabase, id: &str) -> (st: SqlStatement)
    ensures
        runs(st, DELETE_FIXTURE_SQL, seq![text_param(id@)]),
{
    database.delete(id)
}

/// A rule that answers with a fixture's response: its status, headers and
/// body become the fixture's and it is updated at `timestamp`; everything
/// else about it stays.
pub open spec fn rule_with_fixture(rule: MockRule, fixture: MockFixture, timestamp: String) -> MockRule {
    MockRule {
        status_code: Some(fixture.status_code),
        response_headers: fixture.response_headers,
        response_body: fixture.response_body,
        updated_at: timestamp,
        ..rule
    }
}

/// Applying a stored fixture to a stored rule, given what the stores
/// returned for them: a missing fixture is reported before a missing rule.
pub fn apply_fixture_to_mock(fixture: Option<MockFixture>, rule: Option<MockRule>, timestamp: String) -> (r: Result<MockRule, AppError>)
    ensures
        match (fixture, rule) {
            (None, _) => r matches Err(e) && e.code@ == "mock_fixture_missing"@ && e.message@ == "Response fixture not found."@
                && e.recoverable,
            (Some(_), None) => r matches Err(e) && e.code@ == "mock_rule_missing"@ && e.message@ == "Mock rule not found."@
                && e.recoverable,
            (Some(f), Some(m)) => r == Ok::<MockRule, AppError>(rule_with_fixture(m, f, timestamp)),
        },
{
    let fixture = match fixture {
        Some(f) => f,
        None => {
            return Err(AppError::new("mock_fixture_missing", "Response fixture not found.", true));
        },
    };
    let mut rule = match rule {
        Some(m) => m,
        None => {
            return Err(AppError::new("mock_rule_missing", "Mock rule not found.", true));
        },
    };
    rule.status_code = Some(fixture.status_code);
    rule.response_headers = fixture.response_headers;
    rule.response_body = fixture.response_body;
    rule.updated_at = timestamp;
    Ok(rule)
}

} // verus!
