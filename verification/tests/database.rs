use dvrreview::db::migrations::{
    build_registry, legacy_migrations, versions_to_seed, FieldType, Operation, ReferentialAction,
};
use dvrreview::db::models::{FileStatus, MediaType, ReviewDecision, TranscodeStatus};
use dvrreview::db::should_use_tls;

#[test]
fn values_read_back_as_they_are_written() {
    for v in [FileStatus::Pending, FileStatus::Kept, FileStatus::Deleted, FileStatus::Skipped] {
        assert_eq!(FileStatus::from_sql(v.to_sql()), Ok(v));
    }
    for v in [
        ReviewDecision::ConfirmedDuplicates,
        ReviewDecision::NotDuplicates,
        ReviewDecision::NeedsMoreReview,
    ] {
        assert_eq!(ReviewDecision::from_sql(v.to_sql()), Ok(v));
    }
    for v in [
        TranscodeStatus::Pending,
        TranscodeStatus::Transcoding,
        TranscodeStatus::Verifying,
        TranscodeStatus::Completed,
        TranscodeStatus::Failed,
    ] {
        assert_eq!(TranscodeStatus::from_sql(v.to_sql()), Ok(v));
    }
    for v in [MediaType::Tv, MediaType::Movie] {
        assert_eq!(MediaType::from_sql(v.to_sql()), Ok(v));
    }
}

#[test]
fn unknown_values_are_named() {
    assert_eq!(FileStatus::from_sql("lost").unwrap_err(), "Unknown file_status: lost");
    assert_eq!(FileStatus::from_sql("Kept").unwrap_err(), "Unknown file_status: Kept");
    assert_eq!(ReviewDecision::from_sql("x").unwrap_err(), "Unknown review_decision: x");
    assert_eq!(TranscodeStatus::from_sql("").unwrap_err(), "Unknown transcode_status: ");
    assert!(MediaType::from_sql("person").is_err());
}

#[test]
fn connections_to_other_machines_are_encrypted() {
    assert!(should_use_tls("postgres://u@db.example.org/dvr"));
    assert!(should_use_tls("postgres://u@db.example.org/dvr?sslmode=require"));
    assert!(!should_use_tls("postgres://u@db.example.org/dvr?sslmode=disable"));
    assert!(!should_use_tls("postgres://u@db.example.org/dvr?sslmode=allow"));
    assert!(!should_use_tls("postgres://u@localhost/dvr"));
    assert!(!should_use_tls("postgres://u@127.0.0.1:5432/dvr"));
    assert!(!should_use_tls("postgres://u@10.200.0.7/dvr"));
}

#[test]
fn the_history_of_the_database() {
    let registry = build_registry();
    let names: Vec<&str> = registry.iter().map(|m| m.name).collect();
    assert_eq!(
        names,
        vec![
            "0001_initial",
            "0002_transcode",
            "0003_dvr_names",
            "0004_canonical_content",
            "0005_thumbnail_data",
            "0006_tmdb_identification"
        ]
    );
    for (i, m) in registry.iter().enumerate() {
        if let Some(base) = m.depends_on {
            assert!(names[..i].contains(&base));
        } else {
            assert_eq!(i, 0);
        }
    }
    let counts: Vec<usize> = registry.iter().map(|m| m.operations.len()).collect();
    assert_eq!(counts, vec![14, 5, 5, 16, 2, 6]);
}

#[test]
fn the_table_of_recordings() {
    let registry = build_registry();
    match &registry[0].operations[1] {
        Operation::CreateTable { name, fields } => {
            assert_eq!(*name, "files");
            assert_eq!(fields.len(), 17);
            assert_eq!((fields[0].name, fields[0].field_type), ("id", FieldType::Uuid));
            assert!(fields[0].is_primary && !fields[0].nullable);
            assert_eq!(fields[0].default_value, Some("uuid_generate_v4()"));
            assert!(fields[1].is_unique && !fields[1].nullable);
            assert_eq!(fields[14].default_value, Some("'pending'"));
            assert!(fields[16].nullable);
        }
        _ => panic!("a table"),
    }
    match &registry[2].operations[1] {
        Operation::AddField { table, field } => {
            assert_eq!((*table, field.name), ("files", "dvr_id"));
            let reference = field.reference.unwrap();
            assert_eq!((reference.table, reference.column), ("dvrs", "id"));
            assert_eq!(reference.on_delete, ReferentialAction::Cascade);
        }
        _ => panic!("a column"),
    }
}

#[test]
fn references_point_to_tables_that_are_there() {
    let mut tables: Vec<&str> = Vec::new();
    for m in build_registry() {
        for op in &m.operations {
            match op {
                Operation::CreateTable { name, fields } => {
                    for f in fields {
                        if let Some(r) = f.reference {
                            assert!(tables.contains(&r.table));
                        }
                    }
                    tables.push(*name);
                }
                Operation::RunSql { forward, .. } => {
                    if let Some(rest) = forward.strip_prefix("CREATE TABLE ") {
                        tables.push(rest.split(' ').next().unwrap());
                    }
                }
                Operation::AddIndex { table, .. }
                | Operation::AddField { table, .. }
                | Operation::RemoveField { table, .. }
                | Operation::AddUnique { table, .. } => assert!(tables.contains(table)),
            }
        }
    }
    assert_eq!(tables.len(), 12);
}

#[test]
fn databases_without_a_history_are_given_one() {
    assert_eq!(legacy_migrations().len(), 5);
    assert_eq!(versions_to_seed(&vec![], true), legacy_migrations());
    assert!(versions_to_seed(&vec![], false).is_empty());
    assert!(versions_to_seed(&vec!["0001_initial".to_string()], true).is_empty());
    let names: Vec<&str> = build_registry().iter().map(|m| m.name).collect();
    assert_eq!(legacy_migrations(), names[..5].to_vec());
}
