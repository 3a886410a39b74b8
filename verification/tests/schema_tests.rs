use jdb_storage::schema::{RowFault, ValueShape};
use jdb_storage::{
    ColumnDefinition, DataType, ForeignKeyDefinition, IndexDefinition, IndexType,
    ReferentialAction, TableSchema,
};

fn all_types() -> Vec<DataType> {
    vec![
        DataType::Boolean,
        DataType::TinyInt,
        DataType::SmallInt,
        DataType::Integer,
        DataType::BigInt,
        DataType::Real,
        DataType::DoublePrecision,
        DataType::Decimal { precision: 10, scale: 2 },
        DataType::Char(7),
        DataType::VarChar(Some(20)),
        DataType::VarChar(None),
        DataType::Text,
        DataType::Binary(300),
        DataType::VarBinary(None),
        DataType::Date,
        DataType::Time,
        DataType::Timestamp,
        DataType::TimestampTz,
        DataType::Interval,
        DataType::Uuid,
        DataType::Json,
        DataType::JsonB,
        DataType::Array(Box::new(DataType::Integer)),
    ]
}

#[test]
fn data_type_classes() {
    let numeric: Vec<bool> = all_types().iter().map(|t| t.is_numeric()).collect();
    let string: Vec<bool> = all_types().iter().map(|t| t.is_string()).collect();
    let temporal: Vec<bool> = all_types().iter().map(|t| t.is_temporal()).collect();
    let t = true;
    let f = false;
    assert_eq!(numeric, vec![f, t, t, t, t, t, t, t, f, f, f, f, f, f, f, f, f, f, f, f, f, f, f]);
    assert_eq!(string, vec![f, f, f, f, f, f, f, f, t, t, t, t, f, f, f, f, f, f, f, f, f, f, f]);
    assert_eq!(temporal, vec![f, f, f, f, f, f, f, f, f, f, f, f, f, f, t, t, t, t, t, f, f, f, f]);
}

#[test]
fn data_type_size_hints() {
    let sizes: Vec<Option<usize>> = all_types().iter().map(|t| t.size_hint()).collect();
    assert_eq!(
        sizes,
        vec![
            Some(1),
            Some(1),
            Some(2),
            Some(4),
            Some(8),
            Some(4),
            Some(8),
            None,
            Some(7),
            None,
            None,
            None,
            Some(300),
            None,
            Some(4),
            Some(8),
            Some(8),
            Some(12),
            None,
            Some(16),
            None,
            None,
            None,
        ]
    );
}

#[test]
fn data_type_clones_equal() {
    for t in all_types() {
        assert_eq!(t.clone(), t);
    }
    let nested = DataType::Array(Box::new(DataType::Array(Box::new(DataType::Char(3)))));
    assert_eq!(nested.clone(), nested);
    assert_ne!(nested, DataType::Array(Box::new(DataType::Char(3))));
}

#[test]
fn definitions_hold_their_fields() {
    let index = IndexDefinition {
        name: "by_name".to_string(),
        columns: vec!["name".to_string()],
        unique: true,
        index_type: IndexType::BTree,
    };
    assert_eq!(index.clone(), index);
    assert_ne!(IndexType::Hash, IndexType::GIN);
    let key = ForeignKeyDefinition {
        name: "owner".to_string(),
        columns: vec!["owner_id".to_string()],
        referenced_table: "users".to_string(),
        referenced_columns: vec!["id".to_string()],
        on_delete: ReferentialAction::Cascade,
        on_update: ReferentialAction::NoAction,
    };
    assert_eq!(key.clone(), key);
    assert_ne!(ReferentialAction::SetNull, ReferentialAction::SetDefault);
}

#[test]
fn null_suits_every_type_and_others_only_their_kind() {
    for t in all_types() {
        assert!(ValueShape::Null.type_compatible(&t));
    }
    assert!(ValueShape::Null.is_null());
    assert!(!ValueShape::Integer.is_null());
    assert!(ValueShape::Integer.type_compatible(&DataType::Integer));
    assert!(!ValueShape::Integer.type_compatible(&DataType::BigInt));
    assert!(ValueShape::Char(3).type_compatible(&DataType::Char(10)));
    assert!(!ValueShape::Char(3).type_compatible(&DataType::VarChar(None)));
    assert!(ValueShape::VarChar.type_compatible(&DataType::VarChar(Some(1))));
    assert!(ValueShape::Decimal.type_compatible(&DataType::Decimal { precision: 1, scale: 0 }));
    assert!(ValueShape::Array(None).type_compatible(&DataType::Array(Box::new(DataType::Text))));
    assert!(ValueShape::Array(Some(Box::new(ValueShape::Integer)))
        .type_compatible(&DataType::Array(Box::new(DataType::Text))));
    assert!(!ValueShape::Json.type_compatible(&DataType::JsonB));
    let compatible: usize = all_types()
        .iter()
        .filter(|t| ValueShape::Timestamp.type_compatible(t))
        .count();
    assert_eq!(compatible, 1);
}

#[test]
fn shapes_have_the_documented_types() {
    assert_eq!(ValueShape::Boolean.data_type(), DataType::Boolean);
    assert_eq!(ValueShape::Decimal.data_type(), DataType::Decimal { precision: 28, scale: 10 });
    assert_eq!(ValueShape::Char(5).data_type(), DataType::Char(5));
    assert_eq!(ValueShape::Char(65536 + 5).data_type(), DataType::Char(5));
    assert_eq!(ValueShape::Binary(65535).data_type(), DataType::Binary(65535));
    assert_eq!(ValueShape::VarChar.data_type(), DataType::VarChar(None));
    assert_eq!(ValueShape::VarBinary.data_type(), DataType::VarBinary(None));
    assert_eq!(ValueShape::TimestampTz.data_type(), DataType::TimestampTz);
    assert_eq!(
        ValueShape::Array(Some(Box::new(ValueShape::Array(Some(Box::new(ValueShape::Uuid))))))
            .data_type(),
        DataType::Array(Box::new(DataType::Array(Box::new(DataType::Uuid))))
    );
    let shape = ValueShape::Array(Some(Box::new(ValueShape::Text)));
    assert_eq!(shape.clone(), shape);
}

fn column(name: &str, data_type: DataType) -> ColumnDefinition<i64> {
    ColumnDefinition::new(name.to_string(), data_type)
}

#[test]
fn rows_are_checked_column_by_column() {
    let table: TableSchema<i64> = TableSchema::new("t".to_string())
        .add_column(column("id", DataType::Integer).not_null())
        .add_column(column("note", DataType::Text))
        .add_column(column("flag", DataType::Boolean).not_null().default(1))
        .add_column(column("day", DataType::Date).primary_key());
    let full = vec![
        Some(ValueShape::Integer),
        Some(ValueShape::Text),
        Some(ValueShape::Boolean),
        Some(ValueShape::Date),
    ];
    assert_eq!(table.validate_row(&full), Ok(()));
    let sparse = vec![Some(ValueShape::Integer), None, None, Some(ValueShape::Null)];
    assert_eq!(table.validate_row(&sparse), Ok(()));
    let missing_first = vec![None, Some(ValueShape::Integer), None, None];
    assert_eq!(table.validate_row(&missing_first), Err(RowFault::Missing { column: 0 }));
    let wrong_second = vec![Some(ValueShape::Integer), Some(ValueShape::Integer), None, None];
    assert_eq!(table.validate_row(&wrong_second), Err(RowFault::TypeMismatch { column: 1 }));
    let short = vec![Some(ValueShape::Integer)];
    assert_eq!(table.validate_row(&short), Err(RowFault::Missing { column: 3 }));
    let wrong_default = vec![Some(ValueShape::Integer), None, Some(ValueShape::Text), None];
    assert_eq!(table.validate_row(&wrong_default), Err(RowFault::TypeMismatch { column: 2 }));
    let empty: TableSchema<i64> = TableSchema::new("e".to_string());
    assert_eq!(empty.validate_row(&full), Ok(()));
}

#[test]
fn columns_are_built_step_by_step() {
    let plain = column("a", DataType::Integer);
    assert_eq!(plain.name, "a");
    assert_eq!(plain.data_type, DataType::Integer);
    assert!(plain.nullable);
    assert_eq!(plain.default_value, None);
    assert!(!plain.primary_key && !plain.unique && !plain.auto_increment);
    assert_eq!(plain.check_constraint, None);

    let key = plain.clone().primary_key();
    assert!(key.primary_key && !key.nullable);
    assert_eq!(plain.clone().not_null().nullable, false);
    assert!(!plain.clone().not_null().primary_key);
    assert!(plain.clone().unique().unique);
    assert!(plain.clone().unique().nullable);
    assert_eq!(plain.clone().default(7).default_value, Some(7));
    assert!(plain.clone().auto_increment().auto_increment);
    assert_eq!(
        plain.clone().check("a > 0".to_string()).check_constraint,
        Some("a > 0".to_string())
    );
    let all = plain.clone().unique().default(3).auto_increment().primary_key();
    assert!(all.unique && all.auto_increment && all.primary_key && !all.nullable);
    assert_eq!(all.default_value, Some(3));
    assert_eq!(all.name, "a");
}

#[test]
fn tables_find_their_columns() {
    let index = IndexDefinition {
        name: "i".to_string(),
        columns: vec!["a".to_string()],
        unique: false,
        index_type: IndexType::Hash,
    };
    let key = ForeignKeyDefinition {
        name: "f".to_string(),
        columns: vec!["b".to_string()],
        referenced_table: "u".to_string(),
        referenced_columns: vec!["id".to_string()],
        on_delete: ReferentialAction::Restrict,
        on_update: ReferentialAction::SetDefault,
    };
    let table: TableSchema<i64> = TableSchema::new("t".to_string())
        .add_column(column("a", DataType::Integer).primary_key())
        .add_column(column("b", DataType::Text))
        .add_column(column("a", DataType::Date))
        .add_column(column("c", DataType::Uuid).primary_key())
        .add_index(index.clone())
        .add_foreign_key(key.clone());
    assert_eq!(table.name, "t");
    assert_eq!(table.columns.len(), 4);
    assert_eq!(table.indexes, vec![index]);
    assert_eq!(table.foreign_keys, vec![key]);
    assert_eq!(table.get_column("a").unwrap().data_type, DataType::Integer);
    assert_eq!(table.get_column("b").unwrap().data_type, DataType::Text);
    assert_eq!(table.get_column("c").unwrap().data_type, DataType::Uuid);
    assert!(table.get_column("d").is_none());
    assert!(table.get_column("").is_none());
    let keys: Vec<&str> =
        table.get_primary_key_columns().iter().map(|c| c.name.as_str()).collect();
    assert_eq!(keys, vec!["a", "c"]);
    let none: TableSchema<i64> = TableSchema::new("n".to_string());
    assert!(none.get_primary_key_columns().is_empty());
    assert!(none.get_column("a").is_none());
}
