//! One process's raw stat line turned into a record.
use vstd::prelude::*;
use vstd::string::*;
use crate::text::{
    decimal_value, fields, find_first, find_last, first_index, is_u64_decimal, last_index,
    parse_decimal, split_fields,
};

verus! {

/// Fields after the closing parenthesis: the state comes first, then the
/// numbered fields from the fourth on.
pub const STATE_FIELD: usize = 0;

/// The virtual size in bytes (the twenty-second field of the line).
pub const VSIZE_FIELD: usize = 19;

/// The resident set in pages (the twenty-third field of the line).
pub const RSS_FIELD: usize = 20;

/// A process as the table shows it.
#[derive(Clone, Debug, PartialEq, Eq)]
pub struct ProcessRecord {
    pub command: String,
    pub state: String,
    pub virtual_size_kb: u64,
    pub resident_size_kb: u64,
}

pub struct RecordView {
    pub command: Seq<char>,
    pub state: Seq<char>,
    pub virtual_size_kb: u64,
    pub resident_size_kb: u64,
}

impl View for ProcessRecord {
    type V = RecordView;

    open spec fn view(&self) -> RecordView {
        RecordView {
            command: self.command@,
            state: self.state@,
            virtual_size_kb: self.virtual_size_kb,
            resident_size_kb: self.resident_size_kb,
        }
    }
}

pub open spec fn span(s: Seq<char>, f: (int, int)) -> Seq<char> {
    s.subrange(f.0, f.1)
}

/// What a stat line says of its process, given the host's page size: the
/// command lies between the first `(` and the last `)`; after it come
/// blank-separated fields, of which the state, the virtual size in bytes and
/// the resident set in pages are read. `None` where the line has no such
/// parentheses, too few fields, a size that is not an unsigned decimal, or a
/// size in kilobytes beyond 64 bits.
pub open spec fn parse_stat(s: Seq<char>, page_size: u64) -> Option<RecordView> {
    let open = first_index(s, '(');
    let close = last_index(s, ')');
    if open < 0 || close <= open {
        None
    } else {
        let f = fields(s, (close + 1) as nat);
        if f.len() <= RSS_FIELD {
            None
        } else {
            let vs = span(s, f[VSIZE_FIELD as int]);
            let rs = span(s, f[RSS_FIELD as int]);
            let rkb = decimal_value(rs) * page_size / 1024;
            if !is_u64_decimal(vs) || !is_u64_decimal(rs) || rkb > u64::MAX {
                None
            } else {
                Some(
                    RecordView {
                        command: s.subrange(open + 1, close),
                        state: span(s, f[STATE_FIELD as int]),
                        virtual_size_kb: (decimal_value(vs) / 1024) as u64,
                        resident_size_kb: rkb as u64,
                    },
                )
            }
        }
    }
}

pub open spec fn record_view(r: Option<ProcessRecord>) -> Option<RecordView> {
    match r {
        Some(x) => Some(x@),
        None => None,
    }
}

/// Reads a process's stat line; `None` where it is malformed.
pub fn parse_stat_line(line: &str, page_size: u64) -> (r: Option<ProcessRecord>)
    ensures
        record_view(r) == parse_stat(line@, page_size),
{
    let open = match find_first(line, '(') {
        Some(i) => i,
        None => return None,
    };
    let close = match find_last(line, ')') {
        Some(i) => i,
        None => return None,
    };
    if close <= open {
        return None;
    }
    let ghost s = line@;
    let f = split_fields(line, close + 1);
    let ghost fs = fields(s, (close + 1) as nat);
    if f.len() <= RSS_FIELD {
        return None;
    }
    assert(f@[VSIZE_FIELD as int].0 as int == fs[VSIZE_FIELD as int].0);
    assert(f@[RSS_FIELD as int].0 as int == fs[RSS_FIELD as int].0);
    assert(f@[STATE_FIELD as int].0 as int == fs[STATE_FIELD as int].0);
    proof {
        crate::text::lemma_fields_within(s, (close + 1) as nat);
    }
    let (va, vb) = f[VSIZE_FIELD];
    let (ra, rb) = f[RSS_FIELD];
    let (sa, sb) = f[STATE_FIELD];
    let vsize = match parse_decimal(line, va, vb) {
        Some(v) => v,
        None => return None,
    };
    let rss = match parse_decimal(line, ra, rb) {
        Some(v) => v,
        None => return None,
    };
    assert(rss as int * page_size as int <= u64::MAX as int * u64::MAX as int) by (nonlinear_arith)
        requires
            rss <= u64::MAX,
            page_size <= u64::MAX,
    ;
    let rss_bytes: u128 = rss as u128 * page_size as u128;
    let rkb: u128 = rss_bytes / 1024;
    if rkb > u64::MAX as u128 {
        return None;
    }
    let command = line.substring_char(open + 1, close).to_owned();
    let state = line.substring_char(sa, sb).to_owned();
    Some(
        ProcessRecord {
            command,
            state,
            virtual_size_kb: vsize / 1024,
            resident_size_kb: rkb as u64,
        },
    )
}

} // verus!
