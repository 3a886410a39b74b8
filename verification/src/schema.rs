//! The column types of the relational layer and the rules that decide
//! whether a value may stand in a column. Records are opaque bytes to the
//! page; these types say what the layer above puts into them.

use vstd::prelude::*;

verus! {

/// The type of a column.
#[derive(Debug, PartialEq)]
pub enum DataType {
    Boolean,
    TinyInt,
    SmallInt,
    Integer,
    BigInt,
    Real,
    DoublePrecision,
    Decimal { precision: u8, scale: u8 },
    Char(u16),
    VarChar(Option<u16>),
    Text,
    Binary(u16),
    VarBinary(Option<u16>),
    Date,
    Time,
    Timestamp,
    TimestampTz,
    Interval,
    Uuid,
    Json,
    JsonB,
    Array(Box<DataType>),
}

/// How an index is organised.
#[derive(Debug, Clone, PartialEq)]
pub enum IndexType {
    BTree,
    Hash,
    GiST,
    GIN,
}

/// What happens to a referencing row when the row it refers to changes.
#[derive(Debug, Clone, PartialEq)]
pub enum ReferentialAction {
    NoAction,
    Restrict,
    Cascade,
    SetNull,
    SetDefault,
}

/// An index over columns of a table.
#[derive(Debug, Clone, PartialEq)]
pub struct IndexDefinition {
    pub name: String,
    pub columns: Vec<String>,
    pub unique: bool,
    pub index_type: IndexType,
}

/// A foreign key from columns of a table to columns of another.
#[derive(Debug, Clone, PartialEq)]
pub struct ForeignKeyDefinition {
    pub name: String,
    pub columns: Vec<String>,
    pub referenced_table: String,
    pub referenced_columns: Vec<String>,
    pub on_delete: ReferentialAction,
    pub on_update: ReferentialAction,
}

impl Clone for DataType {
    fn clone(&self) -> (copy: Self)
        ensures
            copy == *self,
        decreases self,
    {
        match self {
            DataType::Boolean => DataType::Boolean,
            DataType::TinyInt => DataType::TinyInt,
            DataType::SmallInt => DataType::SmallInt,
            DataType::Integer => DataType::Integer,
            DataType::BigInt => DataType::BigInt,
            DataType::Real => DataType::Real,
            DataType::DoublePrecision => DataType::DoublePrecision,
            DataType::Decimal { precision, scale } => DataType::Decimal {
                precision: *precision,
                scale: *scale,
            },
            DataType::Char(n) => DataType::Char(*n),
            DataType::VarChar(n) => DataType::VarChar(*n),
            DataType::Text => DataType::Text,
            DataType::Binary(n) => DataType::Binary(*n),
            DataType::VarBinary(n) => DataType::VarBinary(*n),
            DataType::Date => DataType::Date,
            DataType::Time => DataType::Time,
            DataType::Timestamp => DataType::Timestamp,
            DataType::TimestampTz => DataType::TimestampTz,
            DataType::Interval => DataType::Interval,
            DataType::Uuid => DataType::Uuid,
            DataType::Json => DataType::Json,
            DataType::JsonB => DataType::JsonB,
            DataType::Array(inner) => DataType::Array(Box::new((&**inner).clone())),
        }
    }
}

impl DataType {
    /// The integer, floating-point and decimal types.
    pub open spec fn spec_is_numeric(&self) -> bool {
        self is TinyInt || self is SmallInt || self is Integer || self is BigInt || self is Real
            || self is DoublePrecision || self is Decimal
    }

    /// The character types.
    pub open spec fn spec_is_string(&self) -> bool {
        self is Char || self is VarChar || self is Text
    }

    /// The types of dates, times and intervals.
    pub open spec fn spec_is_temporal(&self) -> bool {
        self is Date || self is Time || self is Timestamp || self is TimestampTz
            || self is Interval
    }

    /// The size in bytes of a value of the type, for the types whose values
    /// all have one size.
    pub open spec fn spec_size_hint(&self) -> Option<usize> {
        match self {
            DataType::Boolean => Some(1),
            DataType::TinyInt => Some(1),
            DataType::SmallInt => Some(2),
            DataType::Integer => Some(4),
            DataType::BigInt => Some(8),
            DataType::Real => Some(4),
            DataType::DoublePrecision => Some(8),
            DataType::Char(n) => Some(*n as usize),
            DataType::Binary(n) => Some(*n as usize),
            DataType::Date => Some(4),
            DataType::Time => Some(8),
            DataType::Timestamp => Some(8),
            DataType::TimestampTz => Some(12),
            DataType::Uuid => Some(16),
            _ => None,
        }
    }

    /// Whether the type is an integer, floating-point or decimal type.
    pub fn is_numeric(&self) -> (numeric: bool)
        ensures
            numeric == self.spec_is_numeric(),
    {
        matches!(
            self,
            DataType::TinyInt | DataType::SmallInt | DataType::Integer | DataType::BigInt
                | DataType::Real | DataType::DoublePrecision | DataType::Decimal { .. }
        )
    }

    /// Whether the type is a character type.
    pub fn is_string(&self) -> (string: bool)
        ensures
            string == self.spec_is_string(),
    {
        matches!(self, DataType::Char(_) | DataType::VarChar(_) | DataType::Text)
    }

    /// Whether the type is a type of dates, times or intervals.
    pub fn is_temporal(&self) -> (temporal: bool)
        ensures
            temporal == self.spec_is_temporal(),
    {
        matches!(
            self,
            DataType::Date | DataType::Time | DataType::Timestamp | DataType::TimestampTz
                | DataType::Interval
        )
    }

    /// The size in bytes of a value of the type, for the types whose values
    /// all have one size.
    pub fn size_hint(&self) -> (size: Option<usize>)
        ensures
            size == self.spec_size_hint(),
    {
        match self {
            DataType::Boolean => Some(1),
            DataType::TinyInt => Some(1),
            DataType::SmallInt => Some(2),
            DataType::Integer => Some(4),
            DataType::BigInt => Some(8),
            DataType::Real => Some(4),
            DataType::DoublePrecision => Some(8),
            DataType::Char(n) => Some(*n as usize),
            DataType::Binary(n) => Some(*n as usize),
            DataType::Date => Some(4),
            DataType::Time => Some(8),
            DataType::Timestamp => Some(8),
            DataType::TimestampTz => Some(12),
            DataType::Uuid => Some(16),
            _ => None,
        }
    }
}

/// What the type rules read of a value: which kind of value it is, the
/// length of a fixed-length string or byte string, and of an array the
/// shape of its first element, if it has one.
#[derive(Debug, PartialEq)]
pub enum ValueShape {
    Null,
    Boolean,
    TinyInt,
    SmallInt,
    Integer,
    BigInt,
    Real,
    DoublePrecision,
    Decimal,
    Char(usize),
    VarChar,
    Text,
    Binary(usize),
    VarBinary,
    Date,
    Time,
    Timestamp,
    TimestampTz,
    Interval,
    Uuid,
    Json,
    JsonB,
    Array(Option<Box<ValueShape>>),
}

impl Clone for ValueShape {
    fn clone(&self) -> (copy: Self)
        ensures
            copy == *self,
        decreases self,
    {
        match self {
            ValueShape::Null => ValueShape::Null,
            ValueShape::Boolean => ValueShape::Boolean,
            ValueShape::TinyInt => ValueShape::TinyInt,
            ValueShape::SmallInt => ValueShape::SmallInt,
            ValueShape::Integer => ValueShape::Integer,
            ValueShape::BigInt => ValueShape::BigInt,
            ValueShape::Real => ValueShape::Real,
            ValueShape::DoublePrecision => ValueShape::DoublePrecision,
            ValueShape::Decimal => ValueShape::Decimal,
            ValueShape::Char(len) => ValueShape::Char(*len),
            ValueShape::VarChar => ValueShape::VarChar,
            ValueShape::Text => ValueShape::Text,
            ValueShape::Binary(len) => ValueShape::Binary(*len),
            ValueShape::VarBinary => ValueShape::VarBinary,
            ValueShape::Date => ValueShape::Date,
            ValueShape::Time => ValueShape::Time,
            ValueShape::Timestamp => ValueShape::Timestamp,
            ValueShape::TimestampTz => ValueShape::TimestampTz,
            ValueShape::Interval => ValueShape::Interval,
            ValueShape::Uuid => ValueShape::Uuid,
            ValueShape::Json => ValueShape::Json,
            ValueShape::JsonB => ValueShape::JsonB,
            ValueShape::Array(None) => ValueShape::Array(None),
            ValueShape::Array(Some(first)) => ValueShape::Array(
                Some(Box::new((&**first).clone())),
            ),
        }
    }
}

impl ValueShape {
    /// A value of this shape may stand in a column of the type: null may
    /// stand anywhere, and any other value where the column's type is of
    /// its kind, whatever the lengths and element types.
    pub open spec fn spec_type_compatible(&self, data_type: &DataType) -> bool {
        match self {
            ValueShape::Null => true,
            ValueShape::Boolean => data_type is Boolean,
            ValueShape::TinyInt => data_type is TinyInt,
            ValueShape::SmallInt => data_type is SmallInt,
            ValueShape::Integer => data_type is Integer,
            ValueShape::BigInt => data_type is BigInt,
            ValueShape::Real => data_type is Real,
            ValueShape::DoublePrecision => data_type is DoublePrecision,
            ValueShape::Decimal => data_type is Decimal,
            ValueShape::Char(_) => data_type is Char,
            ValueShape::VarChar => data_type is VarChar,
            ValueShape::Text => data_type is Text,
            ValueShape::Binary(_) => data_type is Binary,
            ValueShape::VarBinary => data_type is VarBinary,
            ValueShape::Date => data_type is Date,
            ValueShape::Time => data_type is Time,
            ValueShape::Timestamp => data_type is Timestamp,
            ValueShape::TimestampTz => data_type is TimestampTz,
            ValueShape::Interval => data_type is Interval,
            ValueShape::Uuid => data_type is Uuid,
            ValueShape::Json => data_type is Json,
            ValueShape::JsonB => data_type is JsonB,
            ValueShape::Array(_) => data_type is Array,
        }
    }

    /// The value has a type of its own: it is not null, and it is no empty
    /// array nor an array of such values.
    pub open spec fn has_type(&self) -> bool
        decreases self,
    {
        match self {
            ValueShape::Null => false,
            ValueShape::Array(None) => false,
            ValueShape::Array(Some(first)) => first.has_type(),
            _ => true,
        }
    }

    /// The type of a value of this shape. A decimal has precision 28 and
    /// scale 10; a fixed-length string or byte string has its length, as
    /// far as 16 bits hold it; strings and byte strings of varying length
    /// have no bound; an array has the type of its first element.
    pub open spec fn spec_data_type(&self) -> DataType
        decreases self,
    {
        match self {
            ValueShape::Null => arbitrary(),
            ValueShape::Boolean => DataType::Boolean,
            ValueShape::TinyInt => DataType::TinyInt,
            ValueShape::SmallInt => DataType::SmallInt,
            ValueShape::Integer => DataType::Integer,
            ValueShape::BigInt => DataType::BigInt,
            ValueShape::Real => DataType::Real,
            ValueShape::DoublePrecision => DataType::DoublePrecision,
            ValueShape::Decimal => DataType::Decimal { precision: 28, scale: 10 },
            ValueShape::Char(len) => DataType::Char((*len % 65536) as u16),
            ValueShape::VarChar => DataType::VarChar(None),
            ValueShape::Text => DataType::Text,
            ValueShape::Binary(len) => DataType::Binary((*len % 65536) as u16),
            ValueShape::VarBinary => DataType::VarBinary(None),
            ValueShape::Date => DataType::Date,
            ValueShape::Time => DataType::Time,
            ValueShape::Timestamp => DataType::Timestamp,
            ValueShape::TimestampTz => DataType::TimestampTz,
            ValueShape::Interval => DataType::Interval,
            ValueShape::Uuid => DataType::Uuid,
            ValueShape::Json => DataType::Json,
            ValueShape::JsonB => DataType::JsonB,
            ValueShape::Array(None) => arbitrary(),
            ValueShape::Array(Some(first)) => DataType::Array(Box::new(first.spec_data_type())),
        }
    }

    /// Whether the value is null.
    pub fn is_null(&self) -> (null: bool)
        ensures
            null == (self is Null),
    {
        matches!(self, ValueShape::Null)
    }

    /// Whether a value of this shape may stand in a column of the type.
    pub fn type_compatible(&self, data_type: &DataType) -> (compatible: bool)
        ensures
            compatible == self.spec_type_compatible(data_type),
    {
        match self {
            ValueShape::Null => true,
            ValueShape::Boolean => matches!(data_type, DataType::Boolean),
            ValueShape::TinyInt => matches!(data_type, DataType::TinyInt),
            ValueShape::SmallInt => matches!(data_type, DataType::SmallInt),
            ValueShape::Integer => matches!(data_type, DataType::Integer),
            ValueShape::BigInt => matches!(data_type, DataType::BigInt),
            ValueShape::Real => matches!(data_type, DataType::Real),
            ValueShape::DoublePrecision => matches!(data_type, DataType::DoublePrecision),
            ValueShape::Decimal => matches!(data_type, DataType::Decimal { .. }),
            ValueShape::Char(_) => matches!(data_type, DataType::Char(_)),
            ValueShape::VarChar => matches!(data_type, DataType::VarChar(_)),
            ValueShape::Text => matches!(data_type, DataType::Text),
            ValueShape::Binary(_) => matches!(data_type, DataType::Binary(_)),
            ValueShape::VarBinary => matches!(data_type, DataType::VarBinary(_)),
            ValueShape::Date => matches!(data_type, DataType::Date),
            ValueShape::Time => matches!(data_type, DataType::Time),
            ValueShape::Timestamp => matches!(data_type, DataType::Timestamp),
            ValueShape::TimestampTz => matches!(data_type, DataType::TimestampTz),
            ValueShape::Interval => matches!(data_type, DataType::Interval),
            ValueShape::Uuid => matches!(data_type, DataType::Uuid),
            ValueShape::Json => matches!(data_type, DataType::Json),
            ValueShape::JsonB => matches!(data_type, DataType::JsonB),
            ValueShape::Array(_) => matches!(data_type, DataType::Array(_)),
        }
    }

    /// The type of a value of this shape, which must have one: null has
    /// none, and neither has an empty array.
    pub fn data_type(&self) -> (data_type: DataType)
        requires
            self.has_type(),
        ensures
            data_type == self.spec_data_type(),
        decreases self,
    {
        match self {
            ValueShape::Null => DataType::Boolean,
            ValueShape::Boolean => DataType::Boolean,
            ValueShape::TinyInt => DataType::TinyInt,
            ValueShape::SmallInt => DataType::SmallInt,
            ValueShape::Integer => DataType::Integer,
            ValueShape::BigInt => DataType::BigInt,
            ValueShape::Real => DataType::Real,
            ValueShape::DoublePrecision => DataType::DoublePrecision,
            ValueShape::Decimal => DataType::Decimal { precision: 28, scale: 10 },
            ValueShape::Char(len) => DataType::Char((*len % 65536) as u16),
            ValueShape::VarChar => DataType::VarChar(None),
            ValueShape::Text => DataType::Text,
            ValueShape::Binary(len) => DataType::Binary((*len % 65536) as u16),
            ValueShape::VarBinary => DataType::VarBinary(None),
            ValueShape::Date => DataType::Date,
            ValueShape::Time => DataType::Time,
            ValueShape::Timestamp => DataType::Timestamp,
            ValueShape::TimestampTz => DataType::TimestampTz,
            ValueShape::Interval => DataType::Interval,
            ValueShape::Uuid => DataType::Uuid,
            ValueShape::Json => DataType::Json,
            ValueShape::JsonB => DataType::JsonB,
            ValueShape::Array(None) => DataType::Boolean,
            ValueShape::Array(Some(first)) => DataType::Array(Box::new(first.data_type())),
        }
    }
}

/// A column of a table. `V` is the type of the values of the table, of
/// which a column may hold one as its default.
#[derive(Debug, Clone, PartialEq)]
pub struct ColumnDefinition<V> {
    pub name: String,
    pub data_type: DataType,
    pub nullable: bool,
    pub default_value: Option<V>,
    pub primary_key: bool,
    pub unique: bool,
    pub auto_increment: bool,
    pub check_constraint: Option<String>,
}

impl<V> ColumnDefinition<V> {
    /// A column that admits null and has no default, no key and no
    /// constraint.
    pub fn new(name: String, data_type: DataType) -> (column: Self)
        ensures
            column == (ColumnDefinition::<V> {
                name,
                data_type,
                nullable: true,
                default_value: None,
                primary_key: false,
                unique: false,
                auto_increment: false,
                check_constraint: None,
            }),
    {
        ColumnDefinition {
            name,
            data_type,
            nullable: true,
            default_value: None,
            primary_key: false,
            unique: false,
            auto_increment: false,
            check_constraint: None,
        }
    }

    /// The column, no longer admitting null.
    pub fn not_null(self) -> (column: Self)
        ensures
            column == (ColumnDefinition::<V> { nullable: false, ..self }),
    {
        let mut column = self;
        column.nullable = false;
        column
    }

    /// The column as part of the primary key, which does not admit null.
    pub fn primary_key(self) -> (column: Self)
        ensures
            column == (ColumnDefinition::<V> { primary_key: true, nullable: false, ..self }),
    {
        let mut column = self;
        column.primary_key = true;
        column.nullable = false;
        column
    }

    /// The column, its values unique in the table.
    pub fn unique(self) -> (column: Self)
        ensures
            column == (ColumnDefinition::<V> { unique: true, ..self }),
    {
        let mut column = self;
        column.unique = true;
        column
    }

    /// The column with `value` as its default.
    pub fn default(self, value: V) -> (column: Self)
        ensures
            column == (ColumnDefinition::<V> { default_value: Some(value), ..self }),
    {
        let mut column = self;
        column.default_value = Some(value);
        column
    }

    /// The column, its values counted up by the table.
    pub fn auto_increment(self) -> (column: Self)
        ensures
            column == (ColumnDefinition::<V> { auto_increment: true, ..self }),
    {
        let mut column = self;
        column.auto_increment = true;
        column
    }

    /// The column with a check constraint.
    pub fn check(self, constraint: String) -> (column: Self)
        ensures
            column == (ColumnDefinition::<V> { check_constraint: Some(constraint), ..self }),
    {
        let mut column = self;
        column.check_constraint = Some(constraint);
        column
    }
}

/// Why a row was refused; `column` is the position of the column among
/// the columns of the table.
#[derive(Debug, Clone, Copy, PartialEq, Eq, Structural)]
pub enum RowFault {
    /// The row gives the column a value of another kind than its type.
    TypeMismatch { column: usize },
    /// The row gives the column no value, and the column neither admits
    /// null nor has a default.
    Missing { column: usize },
}

/// What is wrong with what a row gives column `at`, if anything. `given`
/// holds, column by column, the shape of the value that the row gives; a
/// column beyond its end is given none.
pub open spec fn column_fault<V>(
    columns: Seq<ColumnDefinition<V>>,
    given: Seq<Option<ValueShape>>,
    at: int,
) -> Option<RowFault> {
    if at < given.len() && given[at] is Some {
        if given[at].unwrap().spec_type_compatible(&columns[at].data_type) {
            None
        } else {
            Some(RowFault::TypeMismatch { column: at as usize })
        }
    } else if !columns[at].nullable && columns[at].default_value is None {
        Some(RowFault::Missing { column: at as usize })
    } else {
        None
    }
}

/// The first of the columns from `from` on that has the name; the number
/// of columns where none has.
pub open spec fn first_named<V>(columns: Seq<ColumnDefinition<V>>, name: Seq<char>, from: int) -> int
    decreases columns.len() - from,
{
    if from >= columns.len() {
        columns.len() as int
    } else if columns[from].name@ == name {
        from
    } else {
        first_named(columns, name, from + 1)
    }
}

/// The positions of the primary-key columns among the first `n` columns,
/// in rising order.
pub open spec fn key_positions<V>(columns: Seq<ColumnDefinition<V>>, n: int) -> Seq<int>
    decreases n,
{
    if n <= 0 {
        Seq::empty()
    } else if columns[n - 1].primary_key {
        key_positions(columns, n - 1).push(n - 1)
    } else {
        key_positions(columns, n - 1)
    }
}

/// A table: its columns, indexes and foreign keys.
#[derive(Debug, Clone, PartialEq)]
pub struct TableSchema<V> {
    pub name: String,
    pub columns: Vec<ColumnDefinition<V>>,
    pub indexes: Vec<IndexDefinition>,
    pub foreign_keys: Vec<ForeignKeyDefinition>,
}

impl<V> TableSchema<V> {
    /// A table without columns, indexes and foreign keys.
    pub fn new(name: String) -> (table: Self)
        ensures
            table.name == name,
            table.columns@.len() == 0,
            table.indexes@.len() == 0,
            table.foreign_keys@.len() == 0,
    {
        TableSchema { name, columns: Vec::new(), indexes: Vec::new(), foreign_keys: Vec::new() }
    }

    /// The table with one more column, behind the others.
    pub fn add_column(self, column: ColumnDefinition<V>) -> (table: Self)
        ensures
            table.name == self.name,
            table.columns@ == self.columns@.push(column),
            table.indexes == self.indexes,
            table.foreign_keys == self.foreign_keys,
    {
        let mut table = self;
        table.columns.push(column);
        table
    }

    /// The table with one more index, behind the others.
    pub fn add_index(self, index: IndexDefinition) -> (table: Self)
        ensures
            table.name == self.name,
            table.columns == self.columns,
            table.indexes@ == self.indexes@.push(index),
            table.foreign_keys == self.foreign_keys,
    {
        let mut table = self;
        table.indexes.push(index);
        table
    }

    /// The table with one more foreign key, behind the others.
    pub fn add_foreign_key(self, fk: ForeignKeyDefinition) -> (table: Self)
        ensures
            table.name == self.name,
            table.columns == self.columns,
            table.indexes == self.indexes,
            table.foreign_keys@ == self.foreign_keys@.push(fk),
    {
        let mut table = self;
        table.foreign_keys.push(fk);
        table
    }

    /// The first column with the name, if there is one.
    pub fn get_column(&self, name: &str) -> (column: Option<&ColumnDefinition<V>>)
        ensures
            ({
                let at = first_named(self.columns@, name@, 0);
                match column {
                    Some(found) => at < self.columns@.len() && *found == self.columns@[at],
                    None => at == self.columns@.len(),
                }
            }),
    {
        let wanted: String = name.to_owned();
        let n: usize = self.columns.len();
        let mut i: usize = 0;
        while i < n
            invariant
                i <= n,
                n == self.columns@.len(),
                wanted@ == name@,
                first_named(self.columns@, name@, i as int) == first_named(self.columns@, name@, 0),
            decreases n - i,
        {
            if self.columns[i].name == wanted {
                return Some(&self.columns[i]);
            }
            i += 1;
        }
        None
    }

    /// The columns of the primary key, in the order of the table.
    pub fn get_primary_key_columns(&self) -> (keys: Vec<&ColumnDefinition<V>>)
        ensures
            keys@.len() == key_positions(self.columns@, self.columns@.len() as int).len(),
            forall|k: int|
                0 <= k < keys@.len() ==> *(#[trigger] keys@[k]) == self.columns@[key_positions(
                    self.columns@,
                    self.columns@.len() as int,
                )[k]],
    {
        let n: usize = self.columns.len();
        let mut keys: Vec<&ColumnDefinition<V>> = Vec::new();
        let mut i: usize = 0;
        while i < n
            invariant
                i <= n,
                n == self.columns@.len(),
                keys@.len() == key_positions(self.columns@, i as int).len(),
                forall|k: int|
                    0 <= k < keys@.len() ==> *(#[trigger] keys@[k]) == self.columns@[key_positions(
                        self.columns@,
                        i as int,
                    )[k]],
            decreases n - i,
        {
            if self.columns[i].primary_key {
                keys.push(&self.columns[i]);
            }
            i += 1;
        }
        keys
    }

    /// Checks a row against the columns of the table, column by column,
    /// and names the first column that the row does not suit. `given`
    /// holds, column by column, the shape of the value that the row gives.
    pub fn validate_row(&self, given: &[Option<ValueShape>]) -> (checked: Result<(), RowFault>)
        ensures
            match checked {
                Ok(_) => forall|i: int|
                    0 <= i < self.columns@.len() ==> column_fault(self.columns@, given@, i)
                        is None,
                Err(fault) => exists|i: int|
                    {
                        &&& 0 <= i < self.columns@.len()
                        &&& #[trigger] column_fault(self.columns@, given@, i) == Some(fault)
                        &&& forall|j: int|
                            0 <= j < i ==> column_fault(self.columns@, given@, j) is None
                    },
            },
    {
        let n: usize = self.columns.len();
        let mut i: usize = 0;
        while i < n
            invariant
                i <= n,
                n == self.columns@.len(),
                forall|j: int| 0 <= j < i ==> column_fault(self.columns@, given@, j) is None,
            decreases n - i,
        {
            let column = &self.columns[i];
            let present: bool = i < given.len() && given[i].is_some();
            if present {
                match &given[i] {
                    Some(shape) => {
                        if !shape.type_compatible(&column.data_type) {
                            assert(column_fault(self.columns@, given@, i as int) == Some(
                                RowFault::TypeMismatch { column: i },
                            ));
                            return Err(RowFault::TypeMismatch { column: i });
                        }
                    },
                    None => {},
                }
            } else if !column.nullable && column.default_value.is_none() {
                assert(column_fault(self.columns@, given@, i as int) == Some(
                    RowFault::Missing { column: i },
                ));
                return Err(RowFault::Missing { column: i });
            }
            i += 1;
        }
        Ok(())
    }
}

} // verus!
