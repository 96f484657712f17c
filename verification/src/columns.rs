use std::rc::Rc;
use vstd::prelude::*;

verus! {

/// Number of bits set among the lowest `n` bits of `x`.
pub open spec fn bits_set_below(x: u64, n: nat) -> nat
    decreases n,
{
    if n == 0 {
        0
    } else {
        bits_set_below(x, (n - 1) as nat) + ((x >> ((n - 1) as u64)) & 1u64) as nat
    }
}

/// Number of bits set in the two's-complement form of `x`.
pub open spec fn ones(x: i64) -> nat {
    bits_set_below(x as u64, 64)
}

/// Number of bits set over all the values of a column.
pub open spec fn ones_total(s: Seq<i64>) -> nat
    decreases s.len(),
{
    if s.len() == 0 {
        0
    } else {
        ones_total(s.drop_last()) + ones(s.last())
    }
}

/// The number of bits set in `x`.
pub fn count_ones(x: i64) -> (c: u32)
    ensures
        c == ones(x),
        c <= 64,
{
    let v = x as u64;
    let mut c: u32 = 0;
    let mut i: u64 = 0;
    while i < 64
        invariant
            i <= 64,
            v == x as u64,
            c == bits_set_below(v, i as nat),
            c <= i,
        decreases 64 - i,
    {
        let b = (v >> i) & 1u64;
        assert(b <= 1) by (bit_vector)
            requires
                b == (v >> i) & 1u64,
        ;
        c = c + b as u32;
        i = i + 1;
    }
    c
}

/// A prefix of a column has no more bits set than the column.
proof fn lemma_ones_total_prefix(s: Seq<i64>, i: int)
    requires
        0 <= i <= s.len(),
    ensures
        ones_total(s.take(i)) <= ones_total(s),
    decreases s.len() - i,
{
    if i < s.len() {
        lemma_ones_total_prefix(s, i + 1);
        assert(s.take(i + 1).drop_last() =~= s.take(i));
    } else {
        assert(s.take(i) =~= s);
    }
}

proof fn lemma_bits_set_below_bound(x: u64, n: nat)
    ensures
        bits_set_below(x, n) <= n,
    decreases n,
{
    if n > 0 {
        lemma_bits_set_below_bound(x, (n - 1) as nat);
        let sh: u64 = (n - 1) as u64;
        let b = (x >> sh) & 1u64;
        assert(b <= 1) by (bit_vector)
            requires
                b == (x >> sh) & 1u64,
        ;
    }
}

/// A column of `n` values has at most `64 * n` bits set.
pub proof fn lemma_ones_total_bound(s: Seq<i64>)
    ensures
        ones_total(s) <= 64 * s.len(),
    decreases s.len(),
{
    if s.len() > 0 {
        lemma_ones_total_bound(s.drop_last());
        lemma_bits_set_below_bound(s.last() as u64, 64);
    }
}

/// Counting a column's bits splits them into set and clear ones: both
/// counts are non-negative and they add up to 64 bits per value.
pub proof fn lemma_group_count_partition(cols: Seq<Seq<i64>>)
    requires
        group_count_defined(cols),
    ensures
        group_count_output(cols).len() == 1,
        group_count_output(cols)[0].len() == 2,
        group_count_output(cols)[0][0] >= 0,
        group_count_output(cols)[0][1] >= 0,
        group_count_output(cols)[0][0] + group_count_output(cols)[0][1] == 64 * cols[0].len(),
{
    lemma_ones_total_bound(cols[0]);
}

/// A column of booleans packed 64 to a value.
pub struct BooleanNotNullColumn {
    pub data: Vec<i64>,
}

impl BooleanNotNullColumn {
    pub fn data(&self) -> (d: &Vec<i64>)
        ensures
            d@ == self.data@,
    {
        &self.data
    }
}

/// A column of 64-bit integers.
pub struct Int64Column {
    pub data: Vec<i64>,
}

impl Int64Column {
    pub fn data(&self) -> (d: &Vec<i64>)
        ensures
            d@ == self.data@,
    {
        &self.data
    }
}

/// A column of a table.
pub enum Column {
    BooleanNotNull(BooleanNotNullColumn),
    Int64(Int64Column),
}

impl Column {
    /// The values the column stores.
    pub open spec fn values(&self) -> Seq<i64> {
        match self {
            Column::BooleanNotNull(c) => c.data@,
            Column::Int64(c) => c.data@,
        }
    }

    pub fn data(&self) -> (d: &Vec<i64>)
        ensures
            d@ == self.values(),
    {
        match self {
            Column::BooleanNotNull(c) => c.data(),
            Column::Int64(c) => c.data(),
        }
    }
}

/// The values of each of the columns.
pub open spec fn columns_values(cols: Seq<Rc<Column>>) -> Seq<Seq<i64>> {
    Seq::new(cols.len(), |i: int| cols[i].values())
}

/// Another handle on the same column: calls `Rc::clone`, which the contract
/// claims hands back the same column.
#[verifier::external_body]
fn share_column(c: &Rc<Column>) -> (r: Rc<Column>)
    ensures
        r == *c,
{
    Rc::clone(c)
}

/// New handles on the same columns.
fn share_columns(cols: &Vec<Rc<Column>>) -> (r: Vec<Rc<Column>>)
    ensures
        r@ == cols@,
{
    let mut r: Vec<Rc<Column>> = Vec::new();
    let mut i: usize = 0;
    while i < cols.len()
        invariant
            i <= cols@.len(),
            r@ == cols@.subrange(0, i as int),
        decreases cols@.len() - i,
    {
        r.push(share_column(&cols[i]));
        i = i + 1;
        assert(r@ =~= cols@.subrange(0, i as int));
    }
    assert(cols@.subrange(0, cols@.len() as int) =~= cols@);
    r
}

/// What counting the set and clear bits of the single grouped column gives:
/// one column holding the two counts.
pub open spec fn group_count_output(cols: Seq<Seq<i64>>) -> Seq<Seq<i64>> {
    let ones = ones_total(cols[0]);
    seq![seq![ones as i64, (cols[0].len() * 64 - ones) as i64]]
}

/// The inputs on which counting finishes: exactly one column, whose set bits
/// can be summed in a `u32` and whose bit count fits an `i64` and a `usize`.
pub open spec fn group_count_defined(cols: Seq<Seq<i64>>) -> bool {
    &&& cols.len() == 1
    &&& ones_total(cols[0]) <= u32::MAX
    &&& cols[0].len() * 64 <= i64::MAX
    &&& cols[0].len() * 64 <= usize::MAX
}

/// Reads all the columns of a table.
pub struct ScanOperator {
    pub columns: Vec<Rc<Column>>,
}

impl ScanOperator {
    pub fn execute(&self) -> (r: Vec<Rc<Column>>)
        ensures
            r@ == self.columns@,
    {
        share_columns(&self.columns)
    }
}

/// Counts the set and the clear bits of a boolean column.
pub struct BooleanNotNullGroupByCountOperator {
    pub group_by: Vec<Rc<Column>>,
}

impl BooleanNotNullGroupByCountOperator {
    pub fn execute(&self) -> (r: Vec<Rc<Column>>)
        requires
            group_count_defined(columns_values(self.group_by@)),
        ensures
            columns_values(r@) == group_count_output(columns_values(self.group_by@)),
            r@.len() == 1,
            *r@[0] is Int64,
    {
        let ghost cols = columns_values(self.group_by@);
        let data = self.group_by[0].data();
        assert(data@ == cols[0]);
        let mut ones: u32 = 0;
        let mut i: usize = 0;
        while i < data.len()
            invariant
                i <= data@.len(),
                ones == ones_total(data@.take(i as int)),
                ones_total(data@) <= u32::MAX,
            decreases data@.len() - i,
        {
            proof {
                assert(data@.take(i + 1).drop_last() =~= data@.take(i as int));
                lemma_ones_total_prefix(data@, i + 1);
            }
            let c = count_ones(data[i]);
            ones = ones + c;
            i = i + 1;
        }
        assert(data@.take(data@.len() as int) =~= data@);
        let total_bits = (data.len() * 64) as i64;
        let clear = total_bits - ones as i64;
        let column_data = vec![ones as i64, clear];
        let output = Int64Column { data: column_data };
        let r = vec![Rc::new(Column::Int64(output))];
        assert(columns_values(r@) =~= group_count_output(cols));
        r
    }
}

/// A physical operator of a query plan.
pub enum Operator {
    Scan(ScanOperator),
    BooleanNotNullGroupByCount(BooleanNotNullGroupByCountOperator),
}

impl Operator {
    /// The operator finishes on its input.
    pub open spec fn can_execute(&self) -> bool {
        match self {
            Operator::Scan(_) => true,
            Operator::BooleanNotNullGroupByCount(g) => group_count_defined(
                columns_values(g.group_by@),
            ),
        }
    }

    /// The values of the columns the operator produces.
    pub open spec fn output(&self) -> Seq<Seq<i64>> {
        match self {
            Operator::Scan(s) => columns_values(s.columns@),
            Operator::BooleanNotNullGroupByCount(g) => group_count_output(
                columns_values(g.group_by@),
            ),
        }
    }

    pub fn execute(&self) -> (r: Vec<Rc<Column>>)
        requires
            self.can_execute(),
        ensures
            columns_values(r@) == self.output(),
            self matches Operator::Scan(s) ==> r@ == s.columns@,
            self is BooleanNotNullGroupByCount ==> r@.len() == 1 && *r@[0] is Int64,
    {
        match self {
            Operator::Scan(s) => s.execute(),
            Operator::BooleanNotNullGroupByCount(g) => g.execute(),
        }
    }
}

/// A table: a list of columns.
pub struct Table {
    pub columns: Vec<Rc<Column>>,
}

/// A query: the operator at the root of its plan.
pub struct Query {
    pub operator: Box<Operator>,
}

impl Table {
    /// An operator that reads every column of the table.
    pub fn table_scan(&self) -> (s: ScanOperator)
        ensures
            s.columns@ == self.columns@,
    {
        ScanOperator { columns: share_columns(&self.columns) }
    }

    /// A query over the whole table.
    pub fn query(&self) -> (q: Query)
        ensures
            q.can_execute(),
            q.output() == columns_values(self.columns@),
            *q.operator matches Operator::Scan(s) && s.columns@ == self.columns@,
    {
        Query { operator: Box::new(Operator::Scan(self.table_scan())) }
    }
}

impl Query {
    pub open spec fn can_execute(&self) -> bool {
        self.operator.can_execute()
    }

    pub open spec fn output(&self) -> Seq<Seq<i64>> {
        self.operator.output()
    }

    /// A query counting, by value, the bits of the single column this query
    /// produces. Exactly one grouping column must be named.
    pub fn count_group_by(&self, columns: &[usize]) -> (q: Query)
        requires
            columns@.len() == 1,
            self.can_execute(),
        ensures
            *q.operator matches Operator::BooleanNotNullGroupByCount(g) && columns_values(
                g.group_by@,
            ) == self.output(),
            q.can_execute() == group_count_defined(self.output()),
            q.can_execute() ==> q.output() == group_count_output(self.output()),
    {
        let group_by = BooleanNotNullGroupByCountOperator { group_by: self.operator.execute() };
        Query { operator: Box::new(Operator::BooleanNotNullGroupByCount(group_by)) }
    }

    pub fn execute(&self) -> (r: Vec<Rc<Column>>)
        requires
            self.can_execute(),
        ensures
            columns_values(r@) == self.output(),
            *self.operator matches Operator::Scan(s) ==> r@ == s.columns@,
            *self.operator is BooleanNotNullGroupByCount ==> r@.len() == 1 && *r@[0] is Int64,
    {
        self.operator.execute()
    }
}

} // verus!
