//! What is shown of a container: the container engine reports, and the
//! report is put into the form in which it is listed.

use vstd::prelude::*;
use vstd::string::*;
use crate::plain::{decimal, decimal_text};

verus! {

/// How many characters of a container id are shown.
pub const SHORT_ID_LENGTH: usize = 12;

/// How many lines of a container's log are asked for where no number is
/// given.
pub const DEFAULT_TAIL: u64 = 100;

/// The first characters of an id, up to the length that is shown.
pub open spec fn short(id: Seq<char>) -> Seq<char> {
    if id.len() <= SHORT_ID_LENGTH {
        id
    } else {
        id.take(SHORT_ID_LENGTH as int)
    }
}

/// A text without the slashes it begins with.
pub open spec fn without_leading_slashes(s: Seq<char>) -> Seq<char>
    decreases s.len(),
{
    if s.len() > 0 && s[0] == '/' {
        without_leading_slashes(s.skip(1))
    } else {
        s
    }
}

/// The name under which a container is listed: its first name without
/// leading slashes, or the empty text where it has no name.
pub open spec fn listed_name(names: Seq<String>) -> Seq<char> {
    if names.len() == 0 {
        Seq::empty()
    } else {
        without_leading_slashes(names[0]@)
    }
}

/// A port mapping as text: the host port, a colon and the container port,
/// or the container port alone where no host port is mapped.
pub open spec fn port_text(public: Option<u16>, private: u16) -> Seq<char> {
    match public {
        Some(p) => decimal_text(p as u64) + ":"@ + decimal_text(private as u64),
        None => decimal_text(private as u64),
    }
}

/// The difference of two counters, none where the counter went back.
pub open spec fn counter_delta(now: u64, before: u64) -> u64 {
    if now >= before {
        (now - before) as u64
    } else {
        0
    }
}

/// The value of a counter that may be absent, which then counts as zero.
pub open spec fn counter(c: Option<u64>) -> u64 {
    match c {
        Some(v) => v,
        None => 0,
    }
}

/// Puts the reports of the container engine into the listed form.
pub struct DockerManager;

impl DockerManager {
    /// The id of a container as it is shown.
    pub fn short_id(id: &str) -> (r: String)
        ensures
            r@ == short(id@),
    {
        let n = id.unicode_len();
        if n <= SHORT_ID_LENGTH {
            id.to_owned()
        } else {
            let r = id.substring_char(0, SHORT_ID_LENGTH).to_owned();
            assert(id@.subrange(0, SHORT_ID_LENGTH as int) =~= id@.take(SHORT_ID_LENGTH as int));
            r
        }
    }

    /// The name under which a container is listed.
    pub fn display_name(names: &Vec<String>) -> (r: String)
        ensures
            r@ == listed_name(names@),
    {
        if names.len() == 0 {
            return String::new();
        }
        let name = names[0].as_str();
        let n = name.unicode_len();
        let mut i: usize = 0;
        proof {
            assert(name@.skip(0) =~= name@);
        }
        while i < n && name.get_char(i) == '/'
            invariant
                0 <= i <= n,
                n == name@.len(),
                without_leading_slashes(name@) == without_leading_slashes(name@.skip(i as int)),
            decreases n - i,
        {
            proof {
                assert(name@.skip(i as int)[0] == name@[i as int]);
                assert(name@.skip(i as int).skip(1) =~= name@.skip(i as int + 1));
            }
            i = i + 1;
        }
        proof {
            if i < n {
                assert(name@.skip(i as int)[0] == name@[i as int]);
            }
            assert(name@.subrange(i as int, n as int) =~= name@.skip(i as int));
        }
        name.substring_char(i, n).to_owned()
    }

    /// A port mapping as it is listed.
    pub fn port_label(public: Option<u16>, private: u16) -> (r: String)
        ensures
            r@ == port_text(public, private),
    {
        match public {
            Some(p) => {
                let mut label = decimal(p as u64);
                label.append(":");
                label.append(decimal(private as u64).as_str());
                label
            },
            None => decimal(private as u64),
        }
    }

    /// How many lines of a container's log to ask the engine for, as the
    /// engine takes it.
    pub fn tail_argument(tail: Option<u64>) -> (r: String)
        ensures
            r@ == decimal_text(
                match tail {
                    Some(n) => n,
                    None => DEFAULT_TAIL,
                },
            ),
    {
        match tail {
            Some(n) => decimal(n),
            None => decimal(DEFAULT_TAIL),
        }
    }

    /// The processor time that a container and the whole system used between
    /// two samples. The share of the container is the first over the second.
    pub fn cpu_deltas(
        total: u64,
        total_before: u64,
        system: Option<u64>,
        system_before: Option<u64>,
    ) -> (r: (u64, u64))
        ensures
            r.0 == counter_delta(total, total_before),
            r.1 == counter_delta(counter(system), counter(system_before)),
    {
        let cpu = if total >= total_before {
            total - total_before
        } else {
            0
        };
        let now = match system {
            Some(v) => v,
            None => 0,
        };
        let before = match system_before {
            Some(v) => v,
            None => 0,
        };
        let sys = if now >= before {
            now - before
        } else {
            0
        };
        (cpu, sys)
    }
}

} // verus!
