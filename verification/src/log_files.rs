//! Where the logs lie on disk: one directory for each partition, named by
//! topic and partition index, with a single segment file in it.
use vstd::prelude::*;
use vstd::string::StringExecFns;

use crate::fetch::PartitionLog;

verus! {

/// The decimal digit of a number below ten.
pub open spec fn digit_char(d: nat) -> char {
    if d == 0 {
        '0'
    } else if d == 1 {
        '1'
    } else if d == 2 {
        '2'
    } else if d == 3 {
        '3'
    } else if d == 4 {
        '4'
    } else if d == 5 {
        '5'
    } else if d == 6 {
        '6'
    } else if d == 7 {
        '7'
    } else if d == 8 {
        '8'
    } else {
        '9'
    }
}

/// The decimal digits of a number, most significant first, without leading zeros.
pub open spec fn decimal_digits(n: nat) -> Seq<char>
    decreases n,
{
    if n < 10 {
        seq![digit_char(n)]
    } else {
        decimal_digits(n / 10).push(digit_char(n % 10))
    }
}

/// A number in decimal, with a minus sign in front where it is negative.
pub open spec fn decimal_text(n: int) -> Seq<char> {
    if n < 0 {
        seq!['-'] + decimal_digits((-n) as nat)
    } else {
        decimal_digits(n as nat)
    }
}

/// The directory that holds all logs.
pub open spec fn log_root_text() -> Seq<char> {
    "/tmp/kraft-combined-logs/"@
}

/// The name of the only segment of a log.
pub open spec fn segment_text() -> Seq<char> {
    "/00000000000000000000.log"@
}

/// The path of the log of a partition:
/// `/tmp/kraft-combined-logs/<topic>-<partition>/00000000000000000000.log`.
pub open spec fn partition_log_path_text(topic: Seq<char>, partition_index: i32) -> Seq<char> {
    log_root_text() + topic + "-"@ + decimal_text(partition_index as int) + segment_text()
}

/// The path of the controller's metadata log.
pub open spec fn metadata_log_path_text() -> Seq<char> {
    log_root_text() + "__cluster_metadata-0"@ + segment_text()
}

fn digit_text(d: u32) -> (r: &'static str)
    requires
        d < 10,
    ensures
        r@ == seq![digit_char(d as nat)],
{
    proof {
        reveal_strlit("0");
        reveal_strlit("1");
        reveal_strlit("2");
        reveal_strlit("3");
        reveal_strlit("4");
        reveal_strlit("5");
        reveal_strlit("6");
        reveal_strlit("7");
        reveal_strlit("8");
        reveal_strlit("9");
    }
    let r = if d == 0 {
        "0"
    } else if d == 1 {
        "1"
    } else if d == 2 {
        "2"
    } else if d == 3 {
        "3"
    } else if d == 4 {
        "4"
    } else if d == 5 {
        "5"
    } else if d == 6 {
        "6"
    } else if d == 7 {
        "7"
    } else if d == 8 {
        "8"
    } else {
        "9"
    };
    assert(r@ =~= seq![digit_char(d as nat)]);
    r
}

/// Appends the decimal digits of `n`.
fn push_decimal_digits(out: &mut String, n: u32)
    ensures
        final(out)@ == old(out)@ + decimal_digits(n as nat),
    decreases n,
{
    if n >= 10 {
        push_decimal_digits(out, n / 10);
    }
    out.append(digit_text(n % 10));
    assert(out@ =~= old(out)@ + decimal_digits(n as nat));
}

/// Appends a number in decimal.
pub fn push_decimal(out: &mut String, n: i32)
    ensures
        final(out)@ == old(out)@ + decimal_text(n as int),
{
    if n < 0 {
        proof {
            reveal_strlit("-");
        }
        out.append("-");
        let magnitude: u32 = (-(n as i64)) as u32;
        push_decimal_digits(out, magnitude);
        assert(out@ =~= old(out)@ + decimal_text(n as int));
    } else {
        push_decimal_digits(out, n as u32);
    }
}

/// The path of the log of a partition.
pub fn partition_log_path(topic: &str, partition_index: i32) -> (path: String)
    ensures
        path@ == partition_log_path_text(topic@, partition_index),
{
    let mut path = String::from_str("/tmp/kraft-combined-logs/");
    path.append(topic);
    path.append("-");
    push_decimal(&mut path, partition_index);
    path.append("/00000000000000000000.log");
    path
}

/// The path of the log that a handler asked for.
pub fn log_path(log: &PartitionLog) -> (path: String)
    ensures
        path@ == partition_log_path_text(log.model().0, log.model().1),
{
    partition_log_path(log.topic_name.as_str(), log.partition_index)
}

/// The path of the controller's metadata log.
pub fn metadata_log_path() -> (path: String)
    ensures
        path@ == metadata_log_path_text(),
{
    let mut path = String::from_str("/tmp/kraft-combined-logs/");
    path.append("__cluster_metadata-0");
    path.append("/00000000000000000000.log");
    path
}

} // verus!
