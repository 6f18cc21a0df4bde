//! Submitting a project's dev log as an issue: what is checked before, what
//! the issue says, and the record appended to the log after.

use vstd::prelude::*;

use vstd::string::StrSliceExecFns;

use crate::text::{concat3, spec_strip, trim};

verus! {

/// The message when the project has no dev log.
pub open spec fn no_dev_log_message() -> Seq<char> {
    "No dev.log found in project root.\n  Run `naive init <name>` to create a project with a dev.log template,\n  or create one manually."@
}

/// The message when the project has no dev log.
pub fn no_dev_log() -> (m: String)
    ensures
        m@ == no_dev_log_message(),
{
    "No dev.log found in project root.\n  Run `naive init <name>` to create a project with a dev.log template,\n  or create one manually.".to_owned()
}

/// The message when no token is configured.
pub open spec fn no_token_message() -> Seq<char> {
    "NAIVE_GITHUB_TOKEN environment variable not set.\n\nTo submit engine feedback:\n1. Create a GitHub Personal Access Token at https://github.com/settings/tokens\n(needs 'repo' or 'public_repo' scope)\n2. Export it:\nexport NAIVE_GITHUB_TOKEN=ghp_your_token_here\n3. Run `naive submit-log` again"@
}

/// The token to submit with: the configured one, when set and not empty.
pub fn github_token(configured: Option<String>) -> (r: Result<String, String>)
    ensures
        match configured {
            Some(t) if t@.len() > 0 => r matches Ok(x) && x@ == t@,
            _ => r matches Err(m) && m@ == no_token_message(),
        },
{
    match configured {
        Some(t) => {
            if t.as_str().unicode_len() > 0 {
                return Ok(t);
            }
        },
        None => {},
    }
    Err("NAIVE_GITHUB_TOKEN environment variable not set.\n\nTo submit engine feedback:\n1. Create a GitHub Personal Access Token at https://github.com/settings/tokens\n(needs 'repo' or 'public_repo' scope)\n2. Export it:\nexport NAIVE_GITHUB_TOKEN=ghp_your_token_here\n3. Run `naive submit-log` again".to_owned())
}

/// The issue a dev log becomes.
#[derive(Debug, Clone)]
pub struct DevLogIssue {
    pub title: String,
    pub body: String,
}

/// The issue's body: a header naming the project, the engine and the time of
/// submission, a rule, then the log without surrounding whitespace.
pub open spec fn spec_issue_body(name: Seq<char>, version: Seq<char>, engine: Seq<char>, now: Seq<char>, log: Seq<char>) -> Seq<char> {
    "**Project:** "@ + name + " v"@ + version + "  \n**Engine:** nAIVE v"@ + engine + "  \n**Submitted:** "@ + now
        + "  \n\n---\n\n"@ + log
}

/// The issue for a dev log, unless the log is blank.
pub fn dev_log_issue(project_name: &str, project_version: &str, engine_version: &str, now: &str, contents: &str) -> (r: Result<DevLogIssue, String>)
    ensures
        spec_strip(contents@, false).len() == 0 <==> r is Err,
        match r {
            Ok(issue) => issue.title@ == "[Dev Log] "@ + project_name@ + " — v"@ + engine_version@ && issue.body@
                == spec_issue_body(project_name@, project_version@, engine_version@, now@, spec_strip(contents@, false)),
            Err(m) => m@ == "dev.log is empty. Fill it out before submitting."@,
        },
{
    let trimmed = trim(contents);
    if trimmed.as_str().unicode_len() == 0 {
        return Err("dev.log is empty. Fill it out before submitting.".to_owned());
    }
    let t1 = concat3("[Dev Log] ", project_name, " — v");
    let title = concat3(t1.as_str(), engine_version, "");
    let b1 = concat3("**Project:** ", project_name, " v");
    let b2 = concat3(b1.as_str(), project_version, "  \n**Engine:** nAIVE v");
    let b3 = concat3(b2.as_str(), engine_version, "  \n**Submitted:** ");
    let b4 = concat3(b3.as_str(), now, "  \n\n---\n\n");
    let body = concat3(b4.as_str(), trimmed.as_str(), "");
    proof {
        reveal_strlit("");
    }
    Ok(DevLogIssue { title, body })
}

/// The URL of the created issue as reported, or a note that the reply held
/// none.
pub fn issue_url_or_note(url: Option<&str>) -> (r: String)
    ensures
        r@ == match url {
            Some(u) => u@,
            None => "(URL not found in response)"@,
        },
{
    match url {
        Some(u) => u.to_owned(),
        None => "(URL not found in response)".to_owned(),
    }
}

/// The dev log after a submission: its text as it was with a record of when
/// and where it was submitted appended.
pub fn with_submission_record(contents: &str, now: &str, issue_url: &str) -> (r: String)
    ensures
        r@ == contents@ + "\n\n## Submitted: "@ + now@ + " — "@ + issue_url@ + "\n"@,
{
    let a = concat3(contents, "\n\n## Submitted: ", now);
    let b = concat3(a.as_str(), " — ", issue_url);
    proof {
        reveal_strlit("");
    }
    concat3(b.as_str(), "\n", "")
}

} // verus!
