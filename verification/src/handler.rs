//! Assembly of the read-side report: the records of one snapshot with their
//! service flags, and the quota figures with the used amount. Serializing
//! the report and answering HTTP requests is left to the surrounding
//! application.

use vstd::prelude::*;
use crate::config::DiskConfig;
use crate::state::Database;
use crate::state::DiskState;
use crate::state::views_of;
use crate::text::str_eq;

verus! {

/// The value of an optional owner login.
pub open spec fn opt_str_view(u: Option<String>) -> Option<Seq<char>> {
    match u {
        Some(s) => Some(s@),
        None => None,
    }
}

/// One record as the presentation layer receives it.
#[derive(Debug)]
pub struct DatabaseData {
    pub name: String,
    pub user: Option<String>,
    pub modified: i64,
    pub size: u64,
    pub service: bool,
}

impl DatabaseData {
    pub fn new(name: &str, user: Option<&String>, modified: i64, size: u64, service: bool) -> (d:
        DatabaseData)
        ensures
            d.name@ == name@,
            opt_str_view(d.user) == (match user {
                Some(u) => Some(u@),
                None => None::<Seq<char>>,
            }),
            d.modified == modified,
            d.size == size,
            d.service == service,
    {
        DatabaseData { name: name.to_owned(), user: user.cloned(), modified, size, service }
    }
}

/// The whole report: the quota figures and every record of one snapshot.
#[derive(Debug)]
pub struct Response {
    pub disk_used: u64,
    pub disk_capacity: u64,
    pub soft_threshold: u64,
    pub hard_threshold: u64,
    pub databases: Vec<DatabaseData>,
}

impl Response {
    pub fn new(
        disk_used: u64,
        disk_capacity: u64,
        soft_threshold: u64,
        hard_threshold: u64,
        databases: Vec<DatabaseData>,
    ) -> (r: Response)
        ensures
            r == (Response { disk_used, disk_capacity, soft_threshold, hard_threshold, databases }),
    {
        Response { disk_used, disk_capacity, soft_threshold, hard_threshold, databases }
    }
}

/// `name` is one of the configured service database names.
pub open spec fn in_service_list(names: Seq<String>, name: Seq<char>) -> bool {
    exists|i: int| 0 <= i < names.len() && #[trigger] names[i]@ == name
}

/// Unsigned addition with wrap-around past `u64::MAX`.
pub open spec fn add_wrapped(a: u64, b: int) -> u64 {
    if a + b > u64::MAX {
        (a + b - 0x1_0000_0000_0000_0000) as u64
    } else if a + b < 0 {
        (a + b + 0x1_0000_0000_0000_0000) as u64
    } else {
        (a + b) as u64
    }
}

/// The sizes of the records summed with wrap-around on overflow.
pub open spec fn sum_sizes_wrapped(recs: Seq<crate::state::DatabaseView>) -> u64
    decreases recs.len(),
{
    if recs.len() == 0 {
        0
    } else {
        add_wrapped(sum_sizes_wrapped(recs.drop_last()), recs.last().size)
    }
}

/// Whether `name` equals one of `names`.
fn contains_string(names: &Vec<String>, name: &str) -> (b: bool)
    ensures
        b == in_service_list(names@, name@),
{
    let n = names.len();
    let mut i: usize = 0;
    while i < n
        invariant
            0 <= i <= n,
            n == names@.len(),
            forall|t: int| 0 <= t < i ==> #[trigger] names@[t]@ != name@,
        decreases n - i,
    {
        if str_eq(names[i].as_str(), name) {
            return true;
        }
        i += 1;
    }
    false
}

/// Builds the report from one snapshot: every record with its owner,
/// timestamp, size and service flag, and the quota figures. With the fixed
/// disk mode the used figure is the configured offset plus the records'
/// summed sizes (wrapping); with the command mode the sampler already
/// reports consumption, so the offset stands alone.
pub fn state_report(
    records: &Vec<Database>,
    disk: &DiskState,
    service_databases: &Vec<String>,
    disk_config: &DiskConfig,
) -> (r: Response)
    ensures
        r.disk_capacity == disk.capacity,
        r.soft_threshold == disk.soft_threshold,
        r.hard_threshold == disk.hard_threshold,
        *disk_config matches DiskConfig::Fixed { .. } ==> r.disk_used == add_wrapped(
            disk.offset,
            sum_sizes_wrapped(views_of(records@)) as int,
        ),
        *disk_config matches DiskConfig::Command { .. } ==> r.disk_used == disk.offset,
        r.databases@.len() == records@.len(),
        forall|i: int|
            0 <= i < records@.len() ==> {
                let rec = views_of(records@)[i];
                let data = #[trigger] r.databases@[i];
                data.name@ == rec.name && opt_str_view(data.user) == rec.user && data.modified
                    == rec.modified && data.size == rec.size && data.service == in_service_list(
                    service_databases@,
                    rec.name,
                )
            },
{
    let n = records.len();
    let mut databases: Vec<DatabaseData> = Vec::new();
    let mut used: u64 = 0;
    let mut i: usize = 0;
    proof {
        assert(views_of(records@).take(0) =~= Seq::<crate::state::DatabaseView>::empty());
    }
    while i < n
        invariant
            0 <= i <= n,
            n == records@.len(),
            databases@.len() == i,
            used == sum_sizes_wrapped(views_of(records@).take(i as int)),
            forall|t: int|
                0 <= t < i ==> {
                    let rec = views_of(records@)[t];
                    let data = #[trigger] databases@[t];
                    data.name@ == rec.name && opt_str_view(data.user) == rec.user && data.modified
                        == rec.modified && data.size == rec.size && data.service == in_service_list(
                        service_databases@,
                        rec.name,
                    )
                },
        decreases n - i,
    {
        let rec = &records[i];
        let service = contains_string(service_databases, rec.name());
        let data = DatabaseData::new(rec.name(), rec.user(), rec.modified(), rec.size(), service);
        databases.push(data);
        used = used.wrapping_add(rec.size());
        proof {
            let vs = views_of(records@);
            assert(vs.take(i + 1).drop_last() =~= vs.take(i as int));
            assert(vs.take(i + 1).last() == vs[i as int]);
        }
        i += 1;
    }
    proof {
        assert(views_of(records@).take(n as int) =~= views_of(records@));
    }
    let disk_used: u64 = match disk_config {
        DiskConfig::Fixed { .. } => disk.offset().wrapping_add(used),
        DiskConfig::Command { .. } => disk.offset(),
    };
    Response::new(
        disk_used,
        disk.capacity(),
        disk.soft_threshold(),
        disk.hard_threshold(),
        databases,
    )
}

} // verus!
