//! The lines that the shell writes to the terminal.
use crate::number;
use vstd::prelude::*;

verus! {

/// A job has ended.
pub open spec fn finished(job_id: usize, line: Seq<char>) -> Seq<char> {
    "["@ + number::decimal(job_id as nat) + "] 終了\t"@ + line
}

/// A job in the background has ended.
pub open spec fn finished_behind(job_id: usize, line: Seq<char>) -> Seq<char> {
    "\n["@ + number::decimal(job_id as nat) + "] 終了\t"@ + line
}

/// A job has stopped.
pub open spec fn stopped(job_id: usize, line: Seq<char>) -> Seq<char> {
    "\n["@ + number::decimal(job_id as nat) + "] 停止\t"@ + line
}

/// A job goes on in the foreground.
pub open spec fn resumed(job_id: usize, line: Seq<char>) -> Seq<char> {
    "["@ + number::decimal(job_id as nat) + "] 再開\n"@ + line
}

/// A job in the list of jobs.
pub open spec fn listed(job_id: usize, stopped: bool, line: Seq<char>) -> Seq<char> {
    "["@ + number::decimal(job_id as nat) + "] "@ + (if stopped {
        "停止中"@
    } else {
        "実行中"@
    }) + "\t"@ + line
}

/// A signal has ended a process.
pub open spec fn killed(pid: i32, signal: Seq<char>, core: bool) -> Seq<char> {
    "\nrush: 子プロセスがシグナルにより終了"@ + (if core {
        "(コアダンプ)"@
    } else {
        ""@
    }) + ": pid = "@ + number::signed_decimal(pid as int) + ", siganl = "@ + signal
}

/// The text in front of which the user types, with a face for the last exit code.
pub open spec fn prompt(exit_val: i32) -> Seq<char> {
    "rush "@ + (if exit_val == 0 {
        "\u{1F642}"@
    } else {
        "\u{1F480}"@
    }) + " %> "@
}

/// A head, a job's number, a middle and the job's line, one behind the other.
fn write_job(head: &str, job_id: usize, middle: &str, line: &str) -> (r: String)
    ensures
        r@ == head@ + number::decimal(job_id as nat) + middle@ + line@,
{
    let mut r = head.to_owned();
    r.append(number::write_decimal(job_id as u64).as_str());
    r.append(middle);
    r.append(line);
    r
}

/// Says that a job has ended.
pub fn write_finished(job_id: usize, line: &str) -> (r: String)
    ensures
        r@ == finished(job_id, line@),
{
    write_job("[", job_id, "] 終了\t", line)
}

/// Says that a job in the background has ended.
pub fn write_finished_behind(job_id: usize, line: &str) -> (r: String)
    ensures
        r@ == finished_behind(job_id, line@),
{
    write_job("\n[", job_id, "] 終了\t", line)
}

/// Says that a job has stopped.
pub fn write_stopped(job_id: usize, line: &str) -> (r: String)
    ensures
        r@ == stopped(job_id, line@),
{
    write_job("\n[", job_id, "] 停止\t", line)
}

/// Says that a job goes on in the foreground.
pub fn write_resumed(job_id: usize, line: &str) -> (r: String)
    ensures
        r@ == resumed(job_id, line@),
{
    write_job("[", job_id, "] 再開\n", line)
}

/// Says what a job of the list of jobs does.
pub fn write_listed(job_id: usize, stopped: bool, line: &str) -> (r: String)
    ensures
        r@ == listed(job_id, stopped, line@),
{
    let mut r = "[".to_owned();
    r.append(number::write_decimal(job_id as u64).as_str());
    r.append("] ");
    r.append(if stopped { "停止中" } else { "実行中" });
    r.append("\t");
    r.append(line);
    r
}

/// Says that a signal has ended a process.
pub fn write_killed(pid: i32, signal: &str, core: bool) -> (r: String)
    ensures
        r@ == killed(pid, signal@, core),
{
    let mut r = "\nrush: 子プロセスがシグナルにより終了".to_owned();
    r.append(if core { "(コアダンプ)" } else { "" });
    r.append(": pid = ");
    r.append(number::write_signed_decimal(pid).as_str());
    r.append(", siganl = ");
    r.append(signal);
    r
}

/// The text in front of which the user types.
pub fn write_prompt(exit_val: i32) -> (r: String)
    ensures
        r@ == prompt(exit_val),
{
    let mut r = "rush ".to_owned();
    r.append(if exit_val == 0 { "\u{1F642}" } else { "\u{1F480}" });
    r.append(" %> ");
    r
}

/// One text behind the other.
pub fn write_pair(first: &str, second: &str) -> (r: String)
    ensures
        r@ == first@ + second@,
{
    let mut r = first.to_owned();
    r.append(second);
    r
}

} // verus!
