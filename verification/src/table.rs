//! The sensor table model: a named, dynamically-typed columnar container.
//!
//! One table holds the samples of one sensor modality: a shared axis of
//! nanosecond timestamps and named columns of plain integer or boolean
//! values. A column may carry several values per timestamp (three for
//! tri-axis acceleration), so its length must be a positive whole multiple
//! of the axis length; emission checks exactly that and fails with a shape
//! mismatch otherwise. A table is emitted by value, once.

use vstd::prelude::*;

verus! {

/// The sensor modalities a column can carry.
#[derive(Clone, Copy, Debug, PartialEq, Eq, Structural)]
pub enum SensorKind {
    Acceleration,
    Light,
    ButtonState,
    Lux,
    Battery,
    Temperature,
}

/// A homogeneous column of decoded values, tagged with its element type.
pub enum ColumnData {
    I16(Vec<i16>),
    I64(Vec<i64>),
    U16(Vec<u16>),
    U32(Vec<u32>),
    Bool(Vec<bool>),
}

impl ColumnData {
    /// How many elements the column holds.
    pub open spec fn spec_len(&self) -> int {
        match self {
            ColumnData::I16(v) => v@.len() as int,
            ColumnData::I64(v) => v@.len() as int,
            ColumnData::U16(v) => v@.len() as int,
            ColumnData::U32(v) => v@.len() as int,
            ColumnData::Bool(v) => v@.len() as int,
        }
    }

    /// The number of elements in the column.
    pub fn len(&self) -> (r: usize)
        ensures
            r == self.spec_len(),
    {
        match self {
            ColumnData::I16(v) => v.len(),
            ColumnData::I64(v) => v.len(),
            ColumnData::U16(v) => v.len(),
            ColumnData::U32(v) => v.len(),
            ColumnData::Bool(v) => v.len(),
        }
    }
}

/// One named column of a sensor table.
pub struct SensorColumn {
    pub kind: SensorKind,
    pub data: ColumnData,
}

/// Emission was refused: a column's length is not a positive whole
/// multiple of the shared timestamp axis length.
#[derive(Clone, Copy, Debug, PartialEq, Eq, Structural)]
pub struct ShapeMismatch {}

/// Whether a column of `col_len` elements is compatible with a timestamp
/// axis of `dt_len` entries: some positive whole number of elements per
/// timestamp. An empty axis constrains nothing.
pub open spec fn shape_ok(col_len: int, dt_len: int) -> bool {
    dt_len == 0 || (col_len % dt_len == 0 && col_len >= dt_len)
}

/// A named collection of time-aligned columns for one sensor modality.
pub struct SensorTable {
    /// The table's name, as the bridge layer will key it.
    pub name: String,
    /// The shared axis: nanosecond timestamps, one per logical sample.
    pub datetime: Vec<i64>,
    /// The data columns, each aligned to the shared axis.
    pub columns: Vec<SensorColumn>,
}

impl SensorTable {
    /// Every column's length is a positive whole multiple of the axis length.
    pub open spec fn wf_shape(&self) -> bool {
        forall|i: int|
            0 <= i < self.columns@.len() ==> shape_ok(
                #[trigger] self.columns@[i].data.spec_len(),
                self.datetime@.len() as int,
            )
    }

    /// An empty table under the given name.
    pub fn new(name: String) -> (r: SensorTable)
        ensures
            r.name == name,
            r.datetime@ == Seq::<i64>::empty(),
            r.columns@ == Seq::<SensorColumn>::empty(),
    {
        SensorTable { name, datetime: Vec::new(), columns: Vec::new() }
    }

    /// Append one timestamp to the shared axis.
    pub fn push_datetime(&mut self, t: i64)
        ensures
            final(self).name == old(self).name,
            final(self).datetime@ == old(self).datetime@.push(t),
            final(self).columns@ == old(self).columns@,
    {
        self.datetime.push(t);
    }

    /// Append a whole column.
    pub fn append_column(&mut self, kind: SensorKind, data: ColumnData)
        ensures
            final(self).name == old(self).name,
            final(self).datetime@ == old(self).datetime@,
            final(self).columns@ == old(self).columns@.push(SensorColumn { kind, data }),
    {
        self.columns.push(SensorColumn { kind, data });
    }

    /// Emit the completed table: hand it back by value exactly when every
    /// column's length is a positive whole multiple of the timestamp axis
    /// length, and refuse it with `ShapeMismatch` otherwise.
    pub fn emit(self) -> (r: Result<SensorTable, ShapeMismatch>)
        ensures
            self.wf_shape() <==> r is Ok,
            r is Ok ==> r->Ok_0 == self,
    {
        let dt_len: usize = self.datetime.len();
        let mut i: usize = 0;
        while i < self.columns.len()
            invariant
                i <= self.columns@.len(),
                dt_len == self.datetime@.len(),
                forall|j: int|
                    0 <= j < i ==> shape_ok(
                        #[trigger] self.columns@[j].data.spec_len(),
                        dt_len as int,
                    ),
            decreases self.columns@.len() - i,
        {
            let col_len: usize = self.columns[i].data.len();
            if dt_len != 0 && (col_len % dt_len != 0 || col_len < dt_len) {
                return Err(ShapeMismatch {});
            }
            i = i + 1;
        }
        Ok(self)
    }
}

/// Assemble the one sensor table of a decoded event log: the table named
/// `Activity`, the shared timestamp axis, and one acceleration column of
/// three codes per sample. The shape invariant holds by construction, so
/// this table always emits.
pub fn activity_table(time: Vec<i64>, acceleration: Vec<i16>) -> (r: SensorTable)
    requires
        acceleration@.len() == 3 * time@.len(),
    ensures
        r.name@ == "Activity"@,
        r.datetime@ == time@,
        r.columns@.len() == 1,
        r.columns@[0].kind == SensorKind::Acceleration,
        r.columns@[0].data == ColumnData::I16(acceleration),
        r.wf_shape(),
{
    let name: String = "Activity".to_owned();
    let mut table = SensorTable::new(name);
    table.datetime = time;
    table.append_column(SensorKind::Acceleration, ColumnData::I16(acceleration));
    proof {
        if time@.len() > 0 {
            vstd::arithmetic::div_mod::lemma_mod_multiples_basic(3, time@.len() as int);
        }
        assert(table.wf_shape());
    }
    table
}

} // verus!
