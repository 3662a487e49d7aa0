//! Finding the running bar processes that the keyboard watcher signals.

use vstd::prelude::*;
use vstd::string::*;

use crate::scan::{digits_value, is_digit, lemma_digits_value_nonneg};
use crate::text::{chars_eq, chars_eq_str, chars_of};

verus! {

/// The arguments in a `/proc/<pid>/cmdline` file: the pieces between NUL
/// bytes, read from the left, with the pieces seen so far and the one being
/// read.
pub open spec fn cmdline_state(raw: Seq<u8>) -> (Seq<Seq<u8>>, Seq<u8>)
    decreases raw.len(),
{
    if raw.len() == 0 {
        (seq![], seq![])
    } else {
        let (done, current) = cmdline_state(raw.drop_last());
        let b = raw.last();
        if b == 0 {
            if current.len() > 0 {
                (done.push(current), seq![])
            } else {
                (done, seq![])
            }
        } else {
            (done, current.push(b))
        }
    }
}

/// The non-empty pieces of `raw` between NUL bytes.
pub open spec fn cmdline_args(raw: Seq<u8>) -> Seq<Seq<u8>> {
    let (done, current) = cmdline_state(raw);
    if current.len() > 0 {
        done.push(current)
    } else {
        done
    }
}

/// Splits a `cmdline` file into its arguments.
pub fn split_cmdline(raw: &[u8]) -> (args: Vec<Vec<u8>>)
    ensures
        args@.map_values(|a: Vec<u8>| a@) == cmdline_args(raw@),
{
    let mut done: Vec<Vec<u8>> = Vec::new();
    let mut current: Vec<u8> = Vec::new();
    let mut i: usize = 0;
    while i < raw.len()
        invariant
            i <= raw@.len(),
            cmdline_state(raw@.take(i as int)) == (done@.map_values(|a: Vec<u8>| a@), current@),
        decreases raw@.len() - i,
    {
        assert(raw@.take(i + 1).drop_last() =~= raw@.take(i as int));
        let b = raw[i];
        if b == 0 {
            if current.len() > 0 {
                let ghost before = done@;
                let piece = current;
                done.push(piece);
                current = Vec::new();
                assert(done@.map_values(|a: Vec<u8>| a@) =~= before.map_values(|a: Vec<u8>| a@).push(
                    piece@,
                ));
            } else {
                current = Vec::new();
            }
            assert(current@ =~= Seq::<u8>::empty());
        } else {
            current.push(b);
        }
        i += 1;
    }
    assert(raw@.take(raw@.len() as int) =~= raw@);
    if current.len() > 0 {
        let ghost before = done@;
        let piece = current;
        done.push(piece);
        assert(done@.map_values(|a: Vec<u8>| a@) =~= before.map_values(|a: Vec<u8>| a@).push(
            piece@,
        ));
    }
    done
}

/// The process number that a `/proc` entry name stands for: the name must
/// be made of ASCII digits only and fit in an `i32`.
pub open spec fn pid_of_name(name: Seq<u8>) -> Option<i32> {
    if name.len() > 0 && (forall|k: int| 0 <= k < name.len() ==> is_digit(#[trigger] name[k]))
        && digits_value(name) <= i32::MAX {
        Some(digits_value(name) as i32)
    } else {
        None
    }
}

proof fn lemma_digits_value_grows(ds: Seq<u8>, n: int)
    requires
        0 <= n <= ds.len(),
        forall|k: int| 0 <= k < ds.len() ==> is_digit(#[trigger] ds[k]),
    ensures
        digits_value(ds.take(n)) <= digits_value(ds),
    decreases ds.len() - n,
{
    if n < ds.len() {
        lemma_digits_value_grows(ds, n + 1);
        assert(ds.take(n + 1).drop_last() =~= ds.take(n));
        lemma_digits_value_nonneg(ds.take(n));
    } else {
        assert(ds.take(n) =~= ds);
    }
}

/// The process number of a `/proc` entry, unless it is `self_pid`.
pub open spec fn other_pid(name: Seq<u8>, self_pid: i32) -> Option<i32> {
    match pid_of_name(name) {
        Some(pid) => if pid == self_pid {
            None
        } else {
            Some(pid)
        },
        None => None,
    }
}

/// The process that a `/proc` entry called `name` stands for, unless it is
/// this process itself.
pub fn ui_pid_candidate(name: &str, self_pid: i32) -> (r: Option<i32>)
    ensures
        r == other_pid(name.spec_bytes(), self_pid),
{
    let b = name.as_bytes();
    let len = b.len();
    if len == 0 {
        return None;
    }
    let mut value: u64 = 0;
    let mut i: usize = 0;
    assert(b@.take(0) =~= Seq::<u8>::empty());
    while i < len
        invariant
            len == b@.len(),
            b@ == name.spec_bytes(),
            i <= len,
            forall|k: int| 0 <= k < i ==> is_digit(#[trigger] b@[k]),
            value == digits_value(b@.take(i as int)),
            value <= i32::MAX,
        decreases len - i,
    {
        let c = b[i];
        if !(48 <= c && c <= 57) {
            assert(!is_digit(b@[i as int]));
            return None;
        }
        assert(b@.take(i + 1).drop_last() =~= b@.take(i as int));
        let next = value * 10 + (c - 48) as u64;
        if next > 0x7fff_ffff {
            proof {
                if forall|k: int| 0 <= k < b@.len() ==> is_digit(#[trigger] b@[k]) {
                    lemma_digits_value_grows(b@, i + 1);
                }
            }
            return None;
        }
        value = next;
        i += 1;
    }
    assert(b@.take(len as int) =~= b@);
    let pid = value as i32;
    if pid == self_pid {
        None
    } else {
        Some(pid)
    }
}

/// What identifies a running bar: the program is `disturbar`, under any
/// directory, and `--input-backend` is not among its arguments.
pub open spec fn is_ui_process(args: Seq<Seq<char>>) -> bool {
    &&& args.len() > 0
    &&& (args[0] == "disturbar"@ || (args[0].len() >= "/disturbar"@.len() && args[0].skip(
        args[0].len() - "/disturbar"@.len(),
    ) == "/disturbar"@))
    &&& forall|i: int| 0 <= i < args.len() ==> args[i] != "--input-backend"@
}

/// Whether the process with these arguments is a running bar.
pub fn is_disturbar_ui_process(args: &[String]) -> (r: bool)
    ensures
        r == is_ui_process(args@.map_values(|a: String| a@)),
{
    let ghost views = args@.map_values(|a: String| a@);
    if args.len() == 0 {
        return false;
    }
    let bin = chars_of(args[0].as_str());
    let suffix = chars_of("/disturbar");
    let named = if chars_eq_str(bin.as_slice(), "disturbar") {
        true
    } else if bin.len() >= suffix.len() {
        let tail = crate::text::copy_range(bin.as_slice(), bin.len() - suffix.len(), bin.len());
        assert(tail@ =~= bin@.skip(bin@.len() - suffix@.len()));
        chars_eq(tail.as_slice(), suffix.as_slice())
    } else {
        false
    };
    if !named {
        return false;
    }
    let mut i: usize = 0;
    while i < args.len()
        invariant
            i <= args@.len(),
            views == args@.map_values(|a: String| a@),
            forall|k: int| 0 <= k < i ==> views[k] != "--input-backend"@,
        decreases args@.len() - i,
    {
        let arg = chars_of(args[i].as_str());
        if chars_eq_str(arg.as_slice(), "--input-backend") {
            assert(views[i as int] == "--input-backend"@);
            return false;
        }
        i += 1;
    }
    true
}

} // verus!
