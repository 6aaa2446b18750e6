//! The table of jobs started in the background and its textual listing.

use vstd::prelude::*;
use crate::text::push_char;

verus! {

broadcast use vstd::string::group_string_axioms;

/// The character of a decimal digit `d` (0 to 9).
pub open spec fn digit_char(d: nat) -> char {
    (48 + d) as char
}

/// The decimal representation of `n`, most significant digit first, without
/// leading zeros (`"0"` for zero), as `Display` writes unsigned integers.
pub open spec fn decimal(n: nat) -> Seq<char>
    decreases n,
{
    if n < 10 {
        seq![digit_char(n)]
    } else {
        decimal(n / 10).push(digit_char(n % 10))
    }
}

/// The decimal representation of a signed integer, with a leading `-` for
/// negative values, as `Display` writes signed integers.
pub open spec fn signed_decimal(n: int) -> Seq<char> {
    if n < 0 {
        seq!['-'] + decimal((-n) as nat)
    } else {
        decimal(n as nat)
    }
}

/// The character of the digit `d`.
fn digit(d: u32) -> (c: char)
    requires
        d < 10,
    ensures
        c == digit_char(d as nat),
{
    if d == 0 { '0' }
    else if d == 1 { '1' }
    else if d == 2 { '2' }
    else if d == 3 { '3' }
    else if d == 4 { '4' }
    else if d == 5 { '5' }
    else if d == 6 { '6' }
    else if d == 7 { '7' }
    else if d == 8 { '8' }
    else { '9' }
}

/// Appends the decimal representation of `n` to `out`.
pub fn push_decimal(out: &mut String, n: u32)
    ensures
        final(out)@ == old(out)@ + decimal(n as nat),
    decreases n,
{
    if n >= 10 {
        push_decimal(out, n / 10);
    }
    push_char(out, digit(n % 10));
    assert(out@ =~= old(out)@ + decimal(n as nat));
}

/// Appends the decimal representation of `n`, with a leading `-` when it is
/// negative, to `out`.
pub fn push_signed_decimal(out: &mut String, n: i32)
    ensures
        final(out)@ == old(out)@ + signed_decimal(n as int),
{
    if n < 0 {
        push_char(out, '-');
        let magnitude: u32 = if n == i32::MIN {
            2147483648u32
        } else {
            (-n) as u32
        };
        push_decimal(out, magnitude);
        assert(out@ =~= old(out)@ + signed_decimal(n as int));
    } else {
        push_decimal(out, n as u32);
    }
}

/// What became of the process behind a job when it was last asked.
pub enum JobStatus {
    /// The process has exited with this exit code.
    Exited(i32),
    /// The process is still running.
    Running,
    /// Asking the process for its state failed.
    Failed,
}

/// The words that describe a status in the job listing.
pub open spec fn status_text(status: JobStatus) -> Seq<char> {
    match status {
        JobStatus::Exited(code) => "exited with code : "@ + signed_decimal(code as int),
        JobStatus::Running => "running"@,
        JobStatus::Failed => "exited with error"@,
    }
}

impl JobStatus {
    /// The words that describe this status in the job listing.
    pub fn describe(&self) -> (r: String)
        ensures
            r@ == status_text(*self),
    {
        match self {
            JobStatus::Exited(code) => {
                let mut r = String::from_str("exited with code : ");
                push_signed_decimal(&mut r, *code);
                r
            },
            JobStatus::Running => String::from_str("running"),
            JobStatus::Failed => String::from_str("exited with error"),
        }
    }
}

/// A job started in the background: the id of its process and the command
/// line that started it.
#[derive(Clone, Debug)]
pub struct Job {
    pub job_id: u32,
    pub job_command: String,
}

/// The line that lists one job: its id, its command in double quotes and
/// the words for its status.
pub open spec fn job_line(job_id: u32, command: Seq<char>, status: JobStatus) -> Seq<char> {
    decimal(job_id as nat) + "  \""@ + command + "\"      "@ + status_text(status)
}

/// A job's line is laid out as: the decimal id, two spaces, a double quote,
/// the whole command unaltered, a double quote, six spaces, then the status
/// words; it is exactly ten characters longer than those three parts.
pub proof fn law_job_line_layout(job_id: u32, command: Seq<char>, status: JobStatus)
    ensures
        ({
            let line = job_line(job_id, command, status);
            let d = decimal(job_id as nat).len() as int;
            let w = status_text(status);
            &&& line.len() == d + command.len() + w.len() + 10
            &&& line.take(d) == decimal(job_id as nat)
            &&& line[d] == ' ' && line[d + 1] == ' ' && line[d + 2] == '"'
            &&& line.subrange(d + 3, d + 3 + command.len()) == command
            &&& line[d + 3 + command.len()] == '"'
            &&& forall|k: int| d + 4 + command.len() <= k < d + 10 + command.len() ==> line[k] == ' '
            &&& line.skip(d + 10 + command.len()) == w
        }),
{
    reveal_strlit("  \"");
    reveal_strlit("\"      ");
    let line = job_line(job_id, command, status);
    let d = decimal(job_id as nat).len() as int;
    let w = status_text(status);
    let a = decimal(job_id as nat) + "  \""@;
    let b = a + command;
    let c = b + "\"      "@;
    assert(line == c + w);
    assert(line.take(d) =~= decimal(job_id as nat));
    assert(line.subrange(d + 3, d + 3 + command.len()) =~= command);
    assert(line.skip(d + 10 + command.len()) =~= w);
}

/// Every digit of `decimal(n)` is one of `0` to `9`, reading the digits back
/// gives `n`, and there is no leading zero.
pub proof fn law_decimal_reads_back(n: nat)
    ensures
        decimal(n).len() >= 1,
        forall|i: int| 0 <= i < decimal(n).len() ==> '0' <= #[trigger] decimal(n)[i] <= '9',
        digits_value(decimal(n)) == n,
        n >= 1 ==> decimal(n)[0] != '0',
        decimal(n).len() > 1 ==> decimal(n)[0] != '0',
    decreases n,
{
    let d = n % 10;
    assert(digit_char(d) as int == 48 + d);
    if n >= 10 {
        law_decimal_reads_back(n / 10);
        let p = decimal(n / 10);
        let q = p.push(digit_char(d));
        assert(q.drop_last() =~= p);
        assert forall|i: int| 0 <= i < q.len() implies '0' <= #[trigger] q[i] <= '9' by {
            if i < p.len() {
                assert(q[i] == p[i]);
            }
        }
        assert(q[0] == p[0]);
        assert(n == 10 * (n / 10) + n % 10);
        assert(digits_value(q) == 10 * digits_value(p) + d);
    } else {
        let q = seq![digit_char(n)];
        assert(q.drop_last() =~= Seq::<char>::empty());
        assert(digits_value(q) == 10 * digits_value(Seq::<char>::empty()) + n);
    }
}

/// A signed number is written as `-` followed by the digits of its
/// magnitude when it is negative, and as its bare digits otherwise.
pub proof fn law_signed_decimal_reads_back(n: int)
    ensures
        n < 0 ==> signed_decimal(n)[0] == '-' && digits_value(signed_decimal(n).drop_first()) == -n,
        n >= 0 ==> digits_value(signed_decimal(n)) == n,
        forall|i: int| (if n < 0 { 1int } else { 0int }) <= i < signed_decimal(n).len() ==> '0' <= #[trigger] signed_decimal(n)[i] <= '9',
{
    if n < 0 {
        law_decimal_reads_back((-n) as nat);
        let m = decimal((-n) as nat);
        assert((seq!['-'] + m).drop_first() =~= m);
        assert forall|i: int| 1 <= i < signed_decimal(n).len() implies '0' <= #[trigger] signed_decimal(n)[i] <= '9' by {
            assert(signed_decimal(n)[i] == m[i - 1]);
        }
    } else {
        law_decimal_reads_back(n as nat);
    }
}

/// The number written by a string of decimal digits, most significant first.
pub open spec fn digits_value(s: Seq<char>) -> nat
    decreases s.len(),
{
    if s.len() == 0 {
        0
    } else {
        10 * digits_value(s.drop_last()) + ((s.last() as int - 48) as nat)
    }
}

impl Job {
    /// The line that lists this job with the given status.
    pub fn status_line(&self, status: &JobStatus) -> (r: String)
        ensures
            r@ == job_line(self.job_id, self.job_command@, *status),
    {
        let mut r = String::new();
        push_decimal(&mut r, self.job_id);
        r.append("  \"");
        r.append(self.job_command.as_str());
        r.append("\"      ");
        let words = status.describe();
        r.append(words.as_str());
        assert(r@ =~= job_line(self.job_id, self.job_command@, *status));
        r
    }
}

/// The jobs started so far and the number of them that were counted.
pub struct Jobs {
    pub table: Vec<Job>,
    pub count: i32,
}

/// The header line of the job listing.
pub open spec fn listing_header() -> Seq<char> {
    "PID     Command              Status\n"@
}

/// One line per job, each followed by a line break, the `i`-th job with the
/// `i`-th status.
pub open spec fn listing_lines(table: Seq<Job>, statuses: Seq<JobStatus>) -> Seq<char>
    decreases table.len(),
{
    if table.len() == 0 || statuses.len() == 0 {
        Seq::<char>::empty()
    } else {
        listing_lines(table.drop_last(), statuses.drop_last()) + job_line(
            table.last().job_id,
            table.last().job_command@,
            statuses.last(),
        ) + "\n"@
    }
}

/// The lines of a listing, one per job in table order, the `i`-th job with
/// the `i`-th status.
pub open spec fn lines_in_order(table: Seq<Job>, statuses: Seq<JobStatus>) -> Seq<Seq<char>> {
    Seq::new(
        table.len(),
        |i: int| job_line(table[i].job_id, table[i].job_command@, statuses[i]) + seq!['\n'],
    )
}

/// A listing holds, after its header, each job's line followed by a line
/// break, every job once and in table order.
pub proof fn law_listing_in_table_order(table: Seq<Job>, statuses: Seq<JobStatus>)
    requires
        statuses.len() == table.len(),
    ensures
        listing_lines(table, statuses) == lines_in_order(table, statuses).flatten(),
    decreases table.len(),
{
    reveal_strlit("\n");
    assert("\n"@ =~= seq!['\n']);
    if table.len() == 0 {
        assert(lines_in_order(table, statuses) =~= Seq::<Seq<char>>::empty());
    } else {
        let t = table.drop_last();
        let st = statuses.drop_last();
        law_listing_in_table_order(t, st);
        let lines = lines_in_order(table, statuses);
        assert(lines.drop_last() =~= lines_in_order(t, st));
        assert(lines.drop_last().push(lines.last()) =~= lines);
        lines.drop_last().lemma_flatten_push(lines.last());
    }
}

impl Jobs {
    /// An empty table, with a count of zero.
    pub fn new() -> (jobs: Jobs)
        ensures
            jobs.table@.len() == 0,
            jobs.count == 0,
    {
        Jobs { table: Vec::new(), count: 0 }
    }

    /// Adds a job at the end of the table; the count is left as it was.
    pub fn push(&mut self, job: Job)
        ensures
            final(self).table@ == old(self).table@.push(job),
            final(self).count == old(self).count,
    {
        self.table.push(job);
    }

    /// Adds a job that was just started and counts it; returns the new count.
    pub fn add_started(&mut self, job: Job) -> (n: i32)
        requires
            old(self).count < i32::MAX,
        ensures
            final(self).table@ == old(self).table@.push(job),
            final(self).count == old(self).count + 1,
            n == final(self).count,
    {
        self.push(job);
        self.count = self.count + 1;
        self.count
    }

    /// The job listing: the header, then one line per job with its status.
    pub fn render(&self, statuses: &Vec<JobStatus>) -> (r: String)
        requires
            statuses@.len() == self.table@.len(),
        ensures
            r@ == listing_header() + listing_lines(self.table@, statuses@),
    {
        let mut r = String::from_str("PID     Command              Status\n");
        let mut i: usize = 0;
        assert(self.table@.take(0) =~= Seq::<Job>::empty());
        while i < self.table.len()
            invariant
                i <= self.table@.len(),
                statuses@.len() == self.table@.len(),
                r@ == listing_header() + listing_lines(
                    self.table@.take(i as int),
                    statuses@.take(i as int),
                ),
            decreases self.table@.len() - i,
        {
            let line = self.table[i].status_line(&statuses[i]);
            let ghost before = r@;
            r.append(line.as_str());
            r.append("\n");
            assert(self.table@.take(i + 1).drop_last() =~= self.table@.take(i as int));
            assert(statuses@.take(i + 1).drop_last() =~= statuses@.take(i as int));
            assert(r@ =~= listing_header() + listing_lines(
                self.table@.take(i + 1),
                statuses@.take(i + 1),
            ));
            i = i + 1;
        }
        assert(self.table@.take(i as int) =~= self.table@);
        assert(statuses@.take(i as int) =~= statuses@);
        r
    }
}

} // verus!
