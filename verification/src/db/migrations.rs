//! The history of the database: what each version added.
use super::models::{FileStatus, TranscodeStatus};
use vstd::prelude::*;

verus! {

/// The type of a column.
#[derive(Debug, Clone, Copy, PartialEq, Eq, Structural)]
pub enum FieldType {
    Uuid,
    Text,
    BigInt,
    Integer,
    Real,
    Binary,
    TimestampTz,
    JsonB,
}

/// What becomes of a row when the row that it refers to is deleted.
#[derive(Debug, Clone, Copy, PartialEq, Eq, Structural)]
pub enum ReferentialAction {
    /// It is deleted too.
    Cascade,
    /// It refers to nothing then.
    SetNull,
}

/// A reference to a column of another table.
#[derive(Debug, Clone, Copy)]
pub struct Reference {
    pub table: &'static str,
    pub column: &'static str,
    pub on_delete: ReferentialAction,
}

/// A column of a table.
#[derive(Debug, Clone, Copy)]
pub struct Field {
    pub name: &'static str,
    pub field_type: FieldType,
    pub nullable: bool,
    pub is_primary: bool,
    pub is_unique: bool,
    pub default_value: Option<&'static str>,
    pub reference: Option<Reference>,
}

impl Field {
    /// A column that may be empty.
    #[verifier::allow_in_spec]
    pub fn new(name: &'static str, field_type: FieldType) -> (r: Field)
        returns
            (Field {
                name,
                field_type,
                nullable: true,
                is_primary: false,
                is_unique: false,
                default_value: None,
                reference: None,
            }),
    {
        Field {
            name,
            field_type,
            nullable: true,
            is_primary: false,
            is_unique: false,
            default_value: None,
            reference: None,
        }
    }

    /// The column identifies the row.
    #[verifier::allow_in_spec]
    pub fn primary_key(self) -> (r: Field)
        returns
            (Field { nullable: false, is_primary: true, ..self }),
    {
        Field { nullable: false, is_primary: true, ..self }
    }

    /// The column may not be empty.
    #[verifier::allow_in_spec]
    pub fn not_null(self) -> (r: Field)
        returns
            (Field { nullable: false, ..self }),
    {
        Field { nullable: false, ..self }
    }

    /// No two rows have the same value in the column.
    #[verifier::allow_in_spec]
    pub fn unique(self) -> (r: Field)
        returns
            (Field { is_unique: true, ..self }),
    {
        Field { is_unique: true, ..self }
    }

    /// The value of the column where none is given.
    #[verifier::allow_in_spec]
    pub fn with_default(self, value: &'static str) -> (r: Field)
        returns
            (Field { default_value: Some(value), ..self }),
    {
        Field { default_value: Some(value), ..self }
    }

    /// The column refers to a column of another table.
    #[verifier::allow_in_spec]
    pub fn references(
        self,
        table: &'static str,
        column: &'static str,
        on_delete: ReferentialAction,
    ) -> (r: Field)
        returns
            (Field { reference: Some(Reference { table, column, on_delete }), ..self }),
    {
        Field { reference: Some(Reference { table, column, on_delete }), ..self }
    }
}

/// A step in the history of the database.
#[derive(Debug, Clone)]
pub enum Operation {
    /// Run a statement. Some statements can be taken back, and some are for one kind of database
    /// only.
    RunSql {
        forward: &'static str,
        backward: Option<&'static str>,
        only_for: Option<&'static str>,
    },
    /// Create a table.
    CreateTable { name: &'static str, fields: Vec<Field> },
    /// Let no two rows have the same values in the given columns.
    AddUnique { table: &'static str, name: &'static str, columns: Vec<&'static str> },
    /// Add an index on a column.
    AddIndex { table: &'static str, name: &'static str, column: &'static str },
    /// Add a column.
    AddField { table: &'static str, field: Field },
    /// Remove a column, which had the given form.
    RemoveField { table: &'static str, name: &'static str, definition: Field },
}

/// A step as its parts.
pub enum Step {
    RunSql {
        forward: &'static str,
        backward: Option<&'static str>,
        only_for: Option<&'static str>,
    },
    CreateTable { name: &'static str, fields: Seq<Field> },
    AddUnique { table: &'static str, name: &'static str, columns: Seq<&'static str> },
    AddIndex { table: &'static str, name: &'static str, column: &'static str },
    AddField { table: &'static str, field: Field },
    RemoveField { table: &'static str, name: &'static str, definition: Field },
}

impl Operation {
    /// The parts of the step.
    pub open spec fn step(self) -> Step {
        match self {
            Operation::RunSql { forward, backward, only_for } => Step::RunSql {
                forward,
                backward,
                only_for,
            },
            Operation::CreateTable { name, fields } => Step::CreateTable { name, fields: fields@ },
            Operation::AddUnique { table, name, columns } => Step::AddUnique {
                table,
                name,
                columns: columns@,
            },
            Operation::AddIndex { table, name, column } => Step::AddIndex { table, name, column },
            Operation::AddField { table, field } => Step::AddField { table, field },
            Operation::RemoveField { table, name, definition } => Step::RemoveField {
                table,
                name,
                definition,
            },
        }
    }
}

/// The parts of a list of steps.
pub open spec fn steps_of(operations: Seq<Operation>) -> Seq<Step> {
    operations.map_values(|op: Operation| op.step())
}

/// A version of the database: its name, the version that it builds upon, and its steps.
#[derive(Debug, Clone)]
pub struct Migration {
    pub name: &'static str,
    pub depends_on: Option<&'static str>,
    pub operations: Vec<Operation>,
}

impl Migration {
    fn new(name: &'static str, depends_on: Option<&'static str>) -> (r: Self)
        ensures
            r.name == name,
            r.depends_on == depends_on,
            steps_of(r.operations@) == Seq::<Step>::empty(),
    {
        let r = Migration { name, depends_on, operations: Vec::new() };
        assert(steps_of(r.operations@) =~= Seq::<Step>::empty());
        r
    }

    fn operation(&mut self, op: Operation)
        ensures
            final(self).name == old(self).name,
            final(self).depends_on == old(self).depends_on,
            steps_of(final(self).operations@) == steps_of(old(self).operations@).push(op.step()),
    {
        self.operations.push(op);
        assert(steps_of(self.operations@) =~= steps_of(old(self).operations@).push(op.step()));
    }
}

/// The column that identifies the rows of a table.
#[verifier::allow_in_spec]
pub fn id_field() -> (r: Field)
    returns
        (Field::new("id", FieldType::Uuid).primary_key().with_default("uuid_generate_v4()")),
{
    Field::new("id", FieldType::Uuid).primary_key().with_default("uuid_generate_v4()")
}

/// A column with a point in time, which is now where none is given.
#[verifier::allow_in_spec]
pub fn time_field(name: &'static str) -> (r: Field)
    returns
        (Field::new(name, FieldType::TimestampTz).not_null().with_default("NOW()")),
{
    Field::new(name, FieldType::TimestampTz).not_null().with_default("NOW()")
}

/// The columns of the table of the recordings.
pub open spec fn files_columns() -> Seq<Field> {
    seq![
        id_field(),
        Field::new("path", FieldType::Text).not_null().unique(),
        Field::new("size_bytes", FieldType::BigInt).not_null(),
        Field::new("duration_ms", FieldType::Integer),
        Field::new("video_codec", FieldType::Text),
        Field::new("audio_codec", FieldType::Text),
        Field::new("width", FieldType::Integer),
        Field::new("height", FieldType::Integer),
        Field::new("bitrate", FieldType::Integer),
        Field::new("claimed_title", FieldType::Text),
        Field::new("claimed_season", FieldType::Integer),
        Field::new("claimed_episode", FieldType::Integer),
        Field::new("content_start_ms", FieldType::Integer),
        Field::new("content_end_ms", FieldType::Integer),
        Field::new("status", FieldType::Text).not_null().with_default("'pending'"),
        time_field("created_at"),
        Field::new("fingerprinted_at", FieldType::TimestampTz),
    ]
}

fn files_fields() -> (r: Vec<Field>)
    ensures
        r@ == files_columns(),
{
    let fields = vec![
        id_field(),
        Field::new("path", FieldType::Text).not_null().unique(),
        Field::new("size_bytes", FieldType::BigInt).not_null(),
        Field::new("duration_ms", FieldType::Integer),
        Field::new("video_codec", FieldType::Text),
        Field::new("audio_codec", FieldType::Text),
        Field::new("width", FieldType::Integer),
        Field::new("height", FieldType::Integer),
        Field::new("bitrate", FieldType::Integer),
        Field::new("claimed_title", FieldType::Text),
        Field::new("claimed_season", FieldType::Integer),
        Field::new("claimed_episode", FieldType::Integer),
        Field::new("content_start_ms", FieldType::Integer),
        Field::new("content_end_ms", FieldType::Integer),
        Field::new("status", FieldType::Text).not_null().with_default("'pending'"),
        time_field("created_at"),
        Field::new("fingerprinted_at", FieldType::TimestampTz),
    ];
    assert(fields@ =~= files_columns());
    fields
}

/// The columns of the table of the fingerprints.
pub open spec fn fingerprints_columns() -> Seq<Field> {
    seq![
        id_field(),
        Field::new("file_id", FieldType::Uuid).not_null().references("files", "id", ReferentialAction::Cascade),
        Field::new("timestamp_ms", FieldType::Integer).not_null(),
        Field::new("frame_hash", FieldType::Binary),
        Field::new("audio_hash", FieldType::Binary),
    ]
}

fn fingerprints_fields() -> (r: Vec<Field>)
    ensures
        r@ == fingerprints_columns(),
{
    let fields = vec![
        id_field(),
        Field::new("file_id", FieldType::Uuid).not_null().references("files", "id", ReferentialAction::Cascade),
        Field::new("timestamp_ms", FieldType::Integer).not_null(),
        Field::new("frame_hash", FieldType::Binary),
        Field::new("audio_hash", FieldType::Binary),
    ];
    assert(fields@ =~= fingerprints_columns());
    fields
}

/// The columns of the table of the clusters.
pub open spec fn clusters_columns() -> Seq<Field> {
    seq![
        id_field(),
        Field::new("name", FieldType::Text),
        time_field("created_at"),
    ]
}

fn clusters_fields() -> (r: Vec<Field>)
    ensures
        r@ == clusters_columns(),
{
    let fields = vec![
        id_field(),
        Field::new("name", FieldType::Text),
        time_field("created_at"),
    ];
    assert(fields@ =~= clusters_columns());
    fields
}

/// The columns of the table of the reviews.
pub open spec fn reviews_columns() -> Seq<Field> {
    seq![
        id_field(),
        Field::new("cluster_id", FieldType::Uuid).not_null().references("clusters", "id", ReferentialAction::Cascade),
        Field::new("decision", FieldType::Text).not_null(),
        Field::new("kept_file_id", FieldType::Uuid).references("files", "id", ReferentialAction::SetNull),
        Field::new("notes", FieldType::Text),
        time_field("reviewed_at"),
        Field::new("review_context", FieldType::JsonB),
    ]
}

fn reviews_fields() -> (r: Vec<Field>)
    ensures
        r@ == reviews_columns(),
{
    let fields = vec![
        id_field(),
        Field::new("cluster_id", FieldType::Uuid).not_null().references("clusters", "id", ReferentialAction::Cascade),
        Field::new("decision", FieldType::Text).not_null(),
        Field::new("kept_file_id", FieldType::Uuid).references("files", "id", ReferentialAction::SetNull),
        Field::new("notes", FieldType::Text),
        time_field("reviewed_at"),
        Field::new("review_context", FieldType::JsonB),
    ];
    assert(fields@ =~= reviews_columns());
    fields
}

/// The columns of the table of the thumbnails.
pub open spec fn thumbnails_columns() -> Seq<Field> {
    seq![
        id_field(),
        Field::new("file_id", FieldType::Uuid).not_null().references("files", "id", ReferentialAction::Cascade),
        Field::new("timestamp_ms", FieldType::Integer).not_null(),
        Field::new("path", FieldType::Text).not_null(),
    ]
}

fn thumbnails_fields() -> (r: Vec<Field>)
    ensures
        r@ == thumbnails_columns(),
{
    let fields = vec![
        id_field(),
        Field::new("file_id", FieldType::Uuid).not_null().references("files", "id", ReferentialAction::Cascade),
        Field::new("timestamp_ms", FieldType::Integer).not_null(),
        Field::new("path", FieldType::Text).not_null(),
    ];
    assert(fields@ =~= thumbnails_columns());
    fields
}

/// The columns of the table of the collections.
pub open spec fn dvrs_columns() -> Seq<Field> {
    seq![
        id_field(),
        Field::new("name", FieldType::Text).not_null().unique(),
        time_field("created_at"),
        Field::new("last_verified_at", FieldType::TimestampTz),
    ]
}

fn dvrs_fields() -> (r: Vec<Field>)
    ensures
        r@ == dvrs_columns(),
{
    let fields = vec![
        id_field(),
        Field::new("name", FieldType::Text).not_null().unique(),
        time_field("created_at"),
        Field::new("last_verified_at", FieldType::TimestampTz),
    ];
    assert(fields@ =~= dvrs_columns());
    fields
}

/// The columns of the table of the best versions of recordings.
pub open spec fn canonical_content_columns() -> Seq<Field> {
    seq![
        id_field(),
        Field::new("dvr_id", FieldType::Uuid).not_null().references("dvrs", "id", ReferentialAction::Cascade),
        Field::new("title", FieldType::Text).not_null(),
        Field::new("season", FieldType::Integer),
        Field::new("episode", FieldType::Integer),
        Field::new("duration_ms", FieldType::Integer).not_null(),
        Field::new("file_path", FieldType::Text),
        Field::new("fingerprint_timeline", FieldType::Binary),
        Field::new("fingerprint_interval_ms", FieldType::Integer),
        time_field("created_at"),
        time_field("updated_at"),
    ]
}

fn canonical_content_fields() -> (r: Vec<Field>)
    ensures
        r@ == canonical_content_columns(),
{
    let fields = vec![
        id_field(),
        Field::new("dvr_id", FieldType::Uuid).not_null().references("dvrs", "id", ReferentialAction::Cascade),
        Field::new("title", FieldType::Text).not_null(),
        Field::new("season", FieldType::Integer),
        Field::new("episode", FieldType::Integer),
        Field::new("duration_ms", FieldType::Integer).not_null(),
        Field::new("file_path", FieldType::Text),
        Field::new("fingerprint_timeline", FieldType::Binary),
        Field::new("fingerprint_interval_ms", FieldType::Integer),
        time_field("created_at"),
        time_field("updated_at"),
    ];
    assert(fields@ =~= canonical_content_columns());
    fields
}

/// The columns of the table of the segments of the best versions.
pub open spec fn canonical_segments_columns() -> Seq<Field> {
    seq![
        id_field(),
        Field::new("content_id", FieldType::Uuid).not_null().references("canonical_content", "id", ReferentialAction::Cascade),
        Field::new("start_ms", FieldType::Integer).not_null(),
        Field::new("end_ms", FieldType::Integer).not_null(),
        Field::new("segment_type", FieldType::Text).not_null(),
        Field::new("confidence", FieldType::Real).not_null(),
        Field::new("metadata", FieldType::JsonB),
        time_field("created_at"),
    ]
}

fn canonical_segments_fields() -> (r: Vec<Field>)
    ensures
        r@ == canonical_segments_columns(),
{
    let fields = vec![
        id_field(),
        Field::new("content_id", FieldType::Uuid).not_null().references("canonical_content", "id", ReferentialAction::Cascade),
        Field::new("start_ms", FieldType::Integer).not_null(),
        Field::new("end_ms", FieldType::Integer).not_null(),
        Field::new("segment_type", FieldType::Text).not_null(),
        Field::new("confidence", FieldType::Real).not_null(),
        Field::new("metadata", FieldType::JsonB),
        time_field("created_at"),
    ];
    assert(fields@ =~= canonical_segments_columns());
    fields
}

/// The columns of the table of the patterns that recur in recordings.
pub open spec fn known_patterns_columns() -> Seq<Field> {
    seq![
        id_field(),
        Field::new("pattern_type", FieldType::Text).not_null(),
        Field::new("name", FieldType::Text),
        Field::new("series_title", FieldType::Text),
        Field::new("duration_ms", FieldType::Integer).not_null(),
        Field::new("fingerprint_timeline", FieldType::Binary).not_null(),
        Field::new("fingerprint_interval_ms", FieldType::Integer).not_null(),
        Field::new("detection_count", FieldType::Integer).not_null().with_default("1"),
        time_field("first_seen_at"),
        time_field("last_seen_at"),
    ]
}

fn known_patterns_fields() -> (r: Vec<Field>)
    ensures
        r@ == known_patterns_columns(),
{
    let fields = vec![
        id_field(),
        Field::new("pattern_type", FieldType::Text).not_null(),
        Field::new("name", FieldType::Text),
        Field::new("series_title", FieldType::Text),
        Field::new("duration_ms", FieldType::Integer).not_null(),
        Field::new("fingerprint_timeline", FieldType::Binary).not_null(),
        Field::new("fingerprint_interval_ms", FieldType::Integer).not_null(),
        Field::new("detection_count", FieldType::Integer).not_null().with_default("1"),
        time_field("first_seen_at"),
        time_field("last_seen_at"),
    ];
    assert(fields@ =~= known_patterns_columns());
    fields
}

/// The steps of the version `0001_initial`.
pub open spec fn steps_0001_initial() -> Seq<Step> {
    seq![
        Step::RunSql { forward: "CREATE EXTENSION IF NOT EXISTS \"uuid-ossp\"", backward: None, only_for: Some("postgres") },
        Step::CreateTable { name: "files", fields: files_columns() },
        Step::CreateTable { name: "fingerprints", fields: fingerprints_columns() },
        Step::AddUnique { table: "fingerprints", name: "fingerprints_file_id_timestamp_ms_key", columns: seq!["file_id", "timestamp_ms"] },
        Step::CreateTable { name: "clusters", fields: clusters_columns() },
        Step::RunSql { forward: "CREATE TABLE cluster_members (cluster_id UUID NOT NULL REFERENCES clusters(id) ON DELETE CASCADE, file_id UUID NOT NULL REFERENCES files(id) ON DELETE CASCADE, similarity_score REAL, is_canonical BOOLEAN NOT NULL DEFAULT FALSE, PRIMARY KEY (cluster_id, file_id))", backward: Some("DROP TABLE cluster_members"), only_for: None },
        Step::CreateTable { name: "reviews", fields: reviews_columns() },
        Step::CreateTable { name: "thumbnails", fields: thumbnails_columns() },
        Step::AddUnique { table: "thumbnails", name: "thumbnails_file_id_timestamp_ms_key", columns: seq!["file_id", "timestamp_ms"] },
        Step::AddIndex { table: "files", name: "idx_files_claimed_title", column: "claimed_title" },
        Step::AddIndex { table: "files", name: "idx_files_status", column: "status" },
        Step::AddIndex { table: "fingerprints", name: "idx_fingerprints_file_id", column: "file_id" },
        Step::AddIndex { table: "cluster_members", name: "idx_cluster_members_file_id", column: "file_id" },
        Step::AddIndex { table: "thumbnails", name: "idx_thumbnails_file_id", column: "file_id" },
    ]
}

/// The first version: recordings, fingerprints, clusters, reviews and thumbnails.
pub fn migration_0001_initial() -> (r: Migration)
    ensures
        r.name == "0001_initial",
        r.depends_on == None::<&str>,
        steps_of(r.operations@) == steps_0001_initial(),
{
    let mut m = Migration::new("0001_initial", None);
    m.operation(Operation::RunSql { forward: "CREATE EXTENSION IF NOT EXISTS \"uuid-ossp\"", backward: None, only_for: Some("postgres") });
    m.operation(Operation::CreateTable { name: "files", fields: files_fields() });
    m.operation(Operation::CreateTable { name: "fingerprints", fields: fingerprints_fields() });
    m.operation(Operation::AddUnique { table: "fingerprints", name: "fingerprints_file_id_timestamp_ms_key", columns: vec!["file_id", "timestamp_ms"] });
    m.operation(Operation::CreateTable { name: "clusters", fields: clusters_fields() });
    m.operation(Operation::RunSql { forward: "CREATE TABLE cluster_members (cluster_id UUID NOT NULL REFERENCES clusters(id) ON DELETE CASCADE, file_id UUID NOT NULL REFERENCES files(id) ON DELETE CASCADE, similarity_score REAL, is_canonical BOOLEAN NOT NULL DEFAULT FALSE, PRIMARY KEY (cluster_id, file_id))", backward: Some("DROP TABLE cluster_members"), only_for: None });
    m.operation(Operation::CreateTable { name: "reviews", fields: reviews_fields() });
    m.operation(Operation::CreateTable { name: "thumbnails", fields: thumbnails_fields() });
    m.operation(Operation::AddUnique { table: "thumbnails", name: "thumbnails_file_id_timestamp_ms_key", columns: vec!["file_id", "timestamp_ms"] });
    m.operation(Operation::AddIndex { table: "files", name: "idx_files_claimed_title", column: "claimed_title" });
    m.operation(Operation::AddIndex { table: "files", name: "idx_files_status", column: "status" });
    m.operation(Operation::AddIndex { table: "fingerprints", name: "idx_fingerprints_file_id", column: "file_id" });
    m.operation(Operation::AddIndex { table: "cluster_members", name: "idx_cluster_members_file_id", column: "file_id" });
    m.operation(Operation::AddIndex { table: "thumbnails", name: "idx_thumbnails_file_id", column: "file_id" });
    assert(steps_of(m.operations@) =~= steps_0001_initial());
    m
}

/// The steps of the version `0002_transcode`.
pub open spec fn steps_0002_transcode() -> Seq<Step> {
    seq![
        Step::AddField { table: "files", field: Field::new("transcoded_path", FieldType::Text) },
        Step::AddField { table: "files", field: Field::new("transcoded_at", FieldType::TimestampTz) },
        Step::AddField { table: "files", field: Field::new("original_size_bytes", FieldType::BigInt) },
        Step::AddField { table: "files", field: Field::new("transcode_status", FieldType::Text).not_null().with_default("'pending'") },
        Step::AddIndex { table: "files", name: "idx_files_transcode_status", column: "transcode_status" },
    ]
}

/// What is noted of transcoded recordings.
pub fn migration_0002_transcode() -> (r: Migration)
    ensures
        r.name == "0002_transcode",
        r.depends_on == Some("0001_initial"),
        steps_of(r.operations@) == steps_0002_transcode(),
{
    let mut m = Migration::new("0002_transcode", Some("0001_initial"));
    m.operation(Operation::AddField { table: "files", field: Field::new("transcoded_path", FieldType::Text) });
    m.operation(Operation::AddField { table: "files", field: Field::new("transcoded_at", FieldType::TimestampTz) });
    m.operation(Operation::AddField { table: "files", field: Field::new("original_size_bytes", FieldType::BigInt) });
    m.operation(Operation::AddField { table: "files", field: Field::new("transcode_status", FieldType::Text).not_null().with_default("'pending'") });
    m.operation(Operation::AddIndex { table: "files", name: "idx_files_transcode_status", column: "transcode_status" });
    assert(steps_of(m.operations@) =~= steps_0002_transcode());
    m
}

/// The steps of the version `0003_dvr_names`.
pub open spec fn steps_0003_dvr_names() -> Seq<Step> {
    seq![
        Step::CreateTable { name: "dvrs", fields: dvrs_columns() },
        Step::AddField { table: "files", field: Field::new("dvr_id", FieldType::Uuid).references("dvrs", "id", ReferentialAction::Cascade) },
        Step::AddField { table: "files", field: Field::new("relative_path", FieldType::Text) },
        Step::AddIndex { table: "files", name: "idx_files_dvr_id", column: "dvr_id" },
        Step::AddIndex { table: "dvrs", name: "idx_dvrs_name", column: "name" },
    ]
}

/// Collections of recordings.
pub fn migration_0003_dvr_names() -> (r: Migration)
    ensures
        r.name == "0003_dvr_names",
        r.depends_on == Some("0001_initial"),
        steps_of(r.operations@) == steps_0003_dvr_names(),
{
    let mut m = Migration::new("0003_dvr_names", Some("0001_initial"));
    m.operation(Operation::CreateTable { name: "dvrs", fields: dvrs_fields() });
    m.operation(Operation::AddField { table: "files", field: Field::new("dvr_id", FieldType::Uuid).references("dvrs", "id", ReferentialAction::Cascade) });
    m.operation(Operation::AddField { table: "files", field: Field::new("relative_path", FieldType::Text) });
    m.operation(Operation::AddIndex { table: "files", name: "idx_files_dvr_id", column: "dvr_id" });
    m.operation(Operation::AddIndex { table: "dvrs", name: "idx_dvrs_name", column: "name" });
    assert(steps_of(m.operations@) =~= steps_0003_dvr_names());
    m
}

/// The steps of the version `0004_canonical_content`.
pub open spec fn steps_0004_canonical_content() -> Seq<Step> {
    seq![
        Step::CreateTable { name: "canonical_content", fields: canonical_content_columns() },
        Step::CreateTable { name: "canonical_segments", fields: canonical_segments_columns() },
        Step::RunSql { forward: "CREATE TABLE canonical_sources (id UUID PRIMARY KEY DEFAULT uuid_generate_v4(), content_id UUID NOT NULL REFERENCES canonical_content(id) ON DELETE CASCADE, original_path TEXT NOT NULL, original_size_bytes BIGINT, contributed_segments UUID[], quality_score REAL, contributed_at TIMESTAMP WITH TIME ZONE NOT NULL DEFAULT NOW())", backward: Some("DROP TABLE canonical_sources"), only_for: None },
        Step::CreateTable { name: "known_patterns", fields: known_patterns_columns() },
        Step::RunSql { forward: "CREATE TABLE pattern_detections (id UUID PRIMARY KEY DEFAULT uuid_generate_v4(), pattern_id UUID NOT NULL REFERENCES known_patterns(id) ON DELETE CASCADE, file_id UUID REFERENCES files(id) ON DELETE CASCADE, content_id UUID REFERENCES canonical_content(id) ON DELETE CASCADE, start_ms INTEGER NOT NULL, end_ms INTEGER NOT NULL, confidence REAL NOT NULL, detected_at TIMESTAMP WITH TIME ZONE NOT NULL DEFAULT NOW(), CHECK (file_id IS NOT NULL OR content_id IS NOT NULL))", backward: Some("DROP TABLE pattern_detections"), only_for: None },
        Step::AddIndex { table: "canonical_content", name: "idx_canonical_content_dvr_id", column: "dvr_id" },
        Step::AddIndex { table: "canonical_content", name: "idx_canonical_content_title", column: "title" },
        Step::AddIndex { table: "canonical_segments", name: "idx_canonical_segments_content_id", column: "content_id" },
        Step::AddIndex { table: "canonical_segments", name: "idx_canonical_segments_type", column: "segment_type" },
        Step::AddIndex { table: "canonical_sources", name: "idx_canonical_sources_content_id", column: "content_id" },
        Step::AddIndex { table: "known_patterns", name: "idx_known_patterns_type", column: "pattern_type" },
        Step::AddIndex { table: "known_patterns", name: "idx_known_patterns_series", column: "series_title" },
        Step::AddIndex { table: "known_patterns", name: "idx_known_patterns_duration", column: "duration_ms" },
        Step::AddIndex { table: "pattern_detections", name: "idx_pattern_detections_pattern_id", column: "pattern_id" },
        Step::AddIndex { table: "pattern_detections", name: "idx_pattern_detections_file_id", column: "file_id" },
        Step::AddIndex { table: "pattern_detections", name: "idx_pattern_detections_content_id", column: "content_id" },
    ]
}

/// The best versions of recordings, and patterns that recur in them.
pub fn migration_0004_canonical_content() -> (r: Migration)
    ensures
        r.name == "0004_canonical_content",
        r.depends_on == Some("0003_dvr_names"),
        steps_of(r.operations@) == steps_0004_canonical_content(),
{
    let mut m = Migration::new("0004_canonical_content", Some("0003_dvr_names"));
    m.operation(Operation::CreateTable { name: "canonical_content", fields: canonical_content_fields() });
    m.operation(Operation::CreateTable { name: "canonical_segments", fields: canonical_segments_fields() });
    m.operation(Operation::RunSql { forward: "CREATE TABLE canonical_sources (id UUID PRIMARY KEY DEFAULT uuid_generate_v4(), content_id UUID NOT NULL REFERENCES canonical_content(id) ON DELETE CASCADE, original_path TEXT NOT NULL, original_size_bytes BIGINT, contributed_segments UUID[], quality_score REAL, contributed_at TIMESTAMP WITH TIME ZONE NOT NULL DEFAULT NOW())", backward: Some("DROP TABLE canonical_sources"), only_for: None });
    m.operation(Operation::CreateTable { name: "known_patterns", fields: known_patterns_fields() });
    m.operation(Operation::RunSql { forward: "CREATE TABLE pattern_detections (id UUID PRIMARY KEY DEFAULT uuid_generate_v4(), pattern_id UUID NOT NULL REFERENCES known_patterns(id) ON DELETE CASCADE, file_id UUID REFERENCES files(id) ON DELETE CASCADE, content_id UUID REFERENCES canonical_content(id) ON DELETE CASCADE, start_ms INTEGER NOT NULL, end_ms INTEGER NOT NULL, confidence REAL NOT NULL, detected_at TIMESTAMP WITH TIME ZONE NOT NULL DEFAULT NOW(), CHECK (file_id IS NOT NULL OR content_id IS NOT NULL))", backward: Some("DROP TABLE pattern_detections"), only_for: None });
    m.operation(Operation::AddIndex { table: "canonical_content", name: "idx_canonical_content_dvr_id", column: "dvr_id" });
    m.operation(Operation::AddIndex { table: "canonical_content", name: "idx_canonical_content_title", column: "title" });
    m.operation(Operation::AddIndex { table: "canonical_segments", name: "idx_canonical_segments_content_id", column: "content_id" });
    m.operation(Operation::AddIndex { table: "canonical_segments", name: "idx_canonical_segments_type", column: "segment_type" });
    m.operation(Operation::AddIndex { table: "canonical_sources", name: "idx_canonical_sources_content_id", column: "content_id" });
    m.operation(Operation::AddIndex { table: "known_patterns", name: "idx_known_patterns_type", column: "pattern_type" });
    m.operation(Operation::AddIndex { table: "known_patterns", name: "idx_known_patterns_series", column: "series_title" });
    m.operation(Operation::AddIndex { table: "known_patterns", name: "idx_known_patterns_duration", column: "duration_ms" });
    m.operation(Operation::AddIndex { table: "pattern_detections", name: "idx_pattern_detections_pattern_id", column: "pattern_id" });
    m.operation(Operation::AddIndex { table: "pattern_detections", name: "idx_pattern_detections_file_id", column: "file_id" });
    m.operation(Operation::AddIndex { table: "pattern_detections", name: "idx_pattern_detections_content_id", column: "content_id" });
    assert(steps_of(m.operations@) =~= steps_0004_canonical_content());
    m
}

/// The steps of the version `0005_thumbnail_data`.
pub open spec fn steps_0005_thumbnail_data() -> Seq<Step> {
    seq![
        Step::RemoveField { table: "thumbnails", name: "path", definition: Field::new("path", FieldType::Text).not_null() },
        Step::AddField { table: "thumbnails", field: Field::new("data", FieldType::Binary).not_null() },
    ]
}

/// Thumbnails in the database in place of files.
pub fn migration_0005_thumbnail_data() -> (r: Migration)
    ensures
        r.name == "0005_thumbnail_data",
        r.depends_on == Some("0001_initial"),
        steps_of(r.operations@) == steps_0005_thumbnail_data(),
{
    let mut m = Migration::new("0005_thumbnail_data", Some("0001_initial"));
    m.operation(Operation::RemoveField { table: "thumbnails", name: "path", definition: Field::new("path", FieldType::Text).not_null() });
    m.operation(Operation::AddField { table: "thumbnails", field: Field::new("data", FieldType::Binary).not_null() });
    assert(steps_of(m.operations@) =~= steps_0005_thumbnail_data());
    m
}

/// The steps of the version `0006_tmdb_identification`.
pub open spec fn steps_0006_tmdb_identification() -> Seq<Step> {
    seq![
        Step::AddField { table: "files", field: Field::new("tmdb_id", FieldType::Integer) },
        Step::AddField { table: "files", field: Field::new("tmdb_media_type", FieldType::Text) },
        Step::AddField { table: "files", field: Field::new("tmdb_title", FieldType::Text) },
        Step::AddField { table: "files", field: Field::new("tmdb_year", FieldType::Integer) },
        Step::AddField { table: "files", field: Field::new("identified_at", FieldType::TimestampTz) },
        Step::AddIndex { table: "files", name: "idx_files_tmdb_id", column: "tmdb_id" },
    ]
}

/// What recordings were identified as.
pub fn migration_0006_tmdb_identification() -> (r: Migration)
    ensures
        r.name == "0006_tmdb_identification",
        r.depends_on == Some("0001_initial"),
        steps_of(r.operations@) == steps_0006_tmdb_identification(),
{
    let mut m = Migration::new("0006_tmdb_identification", Some("0001_initial"));
    m.operation(Operation::AddField { table: "files", field: Field::new("tmdb_id", FieldType::Integer) });
    m.operation(Operation::AddField { table: "files", field: Field::new("tmdb_media_type", FieldType::Text) });
    m.operation(Operation::AddField { table: "files", field: Field::new("tmdb_title", FieldType::Text) });
    m.operation(Operation::AddField { table: "files", field: Field::new("tmdb_year", FieldType::Integer) });
    m.operation(Operation::AddField { table: "files", field: Field::new("identified_at", FieldType::TimestampTz) });
    m.operation(Operation::AddIndex { table: "files", name: "idx_files_tmdb_id", column: "tmdb_id" });
    assert(steps_of(m.operations@) =~= steps_0006_tmdb_identification());
    m
}

/// `m` is version `i` of the history.
pub open spec fn is_version(m: Migration, i: int) -> bool {
    &&& m.name == version_name(i)
    &&& m.depends_on == version_base(i)
    &&& steps_of(m.operations@) == version_steps(i)
}

/// The name of version `i`.
pub open spec fn version_name(i: int) -> &'static str {
    if i == 0 {
        "0001_initial"
    } else if i == 1 {
        "0002_transcode"
    } else if i == 2 {
        "0003_dvr_names"
    } else if i == 3 {
        "0004_canonical_content"
    } else if i == 4 {
        "0005_thumbnail_data"
    } else {
        "0006_tmdb_identification"
    }
}

/// The version that version `i` builds upon.
pub open spec fn version_base(i: int) -> Option<&'static str> {
    if i == 0 {
        None
    } else if i == 3 {
        Some("0003_dvr_names")
    } else {
        Some("0001_initial")
    }
}

/// The steps of version `i`.
pub open spec fn version_steps(i: int) -> Seq<Step> {
    if i == 0 {
        steps_0001_initial()
    } else if i == 1 {
        steps_0002_transcode()
    } else if i == 2 {
        steps_0003_dvr_names()
    } else if i == 3 {
        steps_0004_canonical_content()
    } else if i == 4 {
        steps_0005_thumbnail_data()
    } else {
        steps_0006_tmdb_identification()
    }
}

/// The history of the database.
pub fn build_registry() -> (r: Vec<Migration>)
    ensures
        r@.len() == 6,
        forall|i: int| 0 <= i < 6 ==> is_version(#[trigger] r@[i], i),
{
    let mut registry: Vec<Migration> = Vec::new();
    registry.push(migration_0001_initial());
    registry.push(migration_0002_transcode());
    registry.push(migration_0003_dvr_names());
    registry.push(migration_0004_canonical_content());
    registry.push(migration_0005_thumbnail_data());
    registry.push(migration_0006_tmdb_identification());
    registry
}

/// Every version builds upon one that comes before it.
pub proof fn versions_build_upon_earlier_ones(i: int)
    requires
        0 < i < 6,
    ensures
        exists|j: int| 0 <= j < i && version_base(i) == Some(#[trigger] version_name(j)),
{
    if i == 3 {
        assert(version_base(i) == Some(version_name(2)));
    } else {
        assert(version_base(i) == Some(version_name(0)));
    }
}

/// No two versions have the same name.
pub proof fn version_names_differ(i: int, j: int)
    requires
        0 <= i < j < 6,
    ensures
        version_name(i)@ != version_name(j)@,
{
    reveal_strlit("0001_initial");
    reveal_strlit("0002_transcode");
    reveal_strlit("0003_dvr_names");
    reveal_strlit("0004_canonical_content");
    reveal_strlit("0005_thumbnail_data");
    reveal_strlit("0006_tmdb_identification");
    assert(version_name(i)@[3] as int == '1' as int + i);
    assert(version_name(j)@[3] as int == '1' as int + j);
}

/// The versions that a database has which was made before its history was kept: all but the last.
pub fn legacy_migrations() -> (r: Vec<&'static str>)
    ensures
        r@ == Seq::new(5, |i: int| version_name(i)),
{
    let names = vec![
        "0001_initial",
        "0002_transcode",
        "0003_dvr_names",
        "0004_canonical_content",
        "0005_thumbnail_data",
    ];
    assert(names@ =~= Seq::new(5, |i: int| version_name(i)));
    names
}

/// The versions to be noted before the history goes on: where none is noted but there is a table of
/// recordings, the database was made before its history was kept.
pub fn versions_to_seed(applied: &Vec<String>, has_files_table: bool) -> (r: Vec<&'static str>)
    ensures
        r@ == (if applied@.len() == 0 && has_files_table {
            Seq::new(5, |i: int| version_name(i))
        } else {
            Seq::empty()
        }),
{
    if applied.len() == 0 && has_files_table {
        legacy_migrations()
    } else {
        Vec::new()
    }
}

/// The name of a column ends in the given letters.
pub open spec fn ends_in(name: Seq<char>, a: char, b: char, c: char) -> bool {
    let n = name.len() as int;
    n >= 3 && name[n - 3] == a && name[n - 2] == b && name[n - 1] == c
}

/// A column is what its name says: a point in time ends in `_at`, a length of time in `_ms`, the
/// identifier of the row is `id`, and a reference to a row of another table, which is by its
/// identifier, ends in `_id`. A reference that is emptied when that row is deleted may be empty.
pub open spec fn follows_its_name(f: Field) -> bool {
    &&& ends_in(f.name@, '_', 'a', 't') <==> f.field_type == FieldType::TimestampTz
    &&& ends_in(f.name@, '_', 'm', 's') ==> f.field_type == FieldType::Integer
    &&& f.is_primary <==> f.name@ == "id"@
    &&& f.is_primary ==> f.field_type == FieldType::Uuid && !f.nullable && f.default_value is Some
    &&& f.reference is Some <==> ends_in(f.name@, '_', 'i', 'd') && f.field_type == FieldType::Uuid
    &&& f.field_type == FieldType::Uuid ==> f.is_primary || f.reference is Some
    &&& f.reference matches Some(r) ==> r.column@ == "id"@ && (r.on_delete
        == ReferentialAction::SetNull ==> f.nullable)
    &&& f.default_value is Some ==> !f.nullable
    &&& f.default_value matches Some(text) ==> {
        &&& f.is_primary ==> text@ == "uuid_generate_v4()"@
        &&& f.field_type == FieldType::TimestampTz ==> text@ == "NOW()"@
    }
}

/// The columns of the table of the recordings are what their names say, only some of them must be
/// filled, and only the path of a recording and the name of a collection must be unique.
pub proof fn files_columns_follow_their_names(i: int)
    requires
        0 <= i < files_columns().len(),
    ensures
        files_columns().len() == 17,
        follows_its_name(files_columns()[i]),
        !files_columns()[i].nullable <==> i == 0 || i == 1 || i == 2 || i == 14 || i == 15,
        files_columns()[i].is_unique <==> i == 1,
{
    reveal_strlit("audio_codec");
    reveal_strlit("bitrate");
    reveal_strlit("claimed_episode");
    reveal_strlit("claimed_season");
    reveal_strlit("claimed_title");
    reveal_strlit("content_end_ms");
    reveal_strlit("content_start_ms");
    reveal_strlit("created_at");
    reveal_strlit("duration_ms");
    reveal_strlit("fingerprinted_at");
    reveal_strlit("height");
    reveal_strlit("id");
    reveal_strlit("path");
    reveal_strlit("size_bytes");
    reveal_strlit("status");
    reveal_strlit("video_codec");
    reveal_strlit("width");
    assert(follows_its_name(files_columns()[0]));
    assert(follows_its_name(files_columns()[1]));
    assert(follows_its_name(files_columns()[2]));
    assert(follows_its_name(files_columns()[3]));
    assert(follows_its_name(files_columns()[4]));
    assert(follows_its_name(files_columns()[5]));
    assert(follows_its_name(files_columns()[6]));
    assert(follows_its_name(files_columns()[7]));
    assert(follows_its_name(files_columns()[8]));
    assert(follows_its_name(files_columns()[9]));
    assert(follows_its_name(files_columns()[10]));
    assert(follows_its_name(files_columns()[11]));
    assert(follows_its_name(files_columns()[12]));
    assert(follows_its_name(files_columns()[13]));
    assert(follows_its_name(files_columns()[14]));
    assert(follows_its_name(files_columns()[15]));
    assert(follows_its_name(files_columns()[16]));
}

/// The columns of the table of the fingerprints are what their names say, only some of them must be
/// filled, and only the path of a recording and the name of a collection must be unique.
pub proof fn fingerprints_columns_follow_their_names(i: int)
    requires
        0 <= i < fingerprints_columns().len(),
    ensures
        fingerprints_columns().len() == 5,
        follows_its_name(fingerprints_columns()[i]),
        !fingerprints_columns()[i].nullable <==> i == 0 || i == 1 || i == 2,
        !fingerprints_columns()[i].is_unique,
{
    reveal_strlit("audio_hash");
    reveal_strlit("file_id");
    reveal_strlit("frame_hash");
    reveal_strlit("id");
    reveal_strlit("timestamp_ms");
    assert(follows_its_name(fingerprints_columns()[0]));
    assert(follows_its_name(fingerprints_columns()[1]));
    assert(follows_its_name(fingerprints_columns()[2]));
    assert(follows_its_name(fingerprints_columns()[3]));
    assert(follows_its_name(fingerprints_columns()[4]));
}

/// The columns of the table of the clusters are what their names say, only some of them must be
/// filled, and only the path of a recording and the name of a collection must be unique.
pub proof fn clusters_columns_follow_their_names(i: int)
    requires
        0 <= i < clusters_columns().len(),
    ensures
        clusters_columns().len() == 3,
        follows_its_name(clusters_columns()[i]),
        !clusters_columns()[i].nullable <==> i == 0 || i == 2,
        !clusters_columns()[i].is_unique,
{
    reveal_strlit("created_at");
    reveal_strlit("id");
    reveal_strlit("name");
    assert(follows_its_name(clusters_columns()[0]));
    assert(follows_its_name(clusters_columns()[1]));
    assert(follows_its_name(clusters_columns()[2]));
}

/// The columns of the table of the reviews are what their names say, only some of them must be
/// filled, and only the path of a recording and the name of a collection must be unique.
pub proof fn reviews_columns_follow_their_names(i: int)
    requires
        0 <= i < reviews_columns().len(),
    ensures
        reviews_columns().len() == 7,
        follows_its_name(reviews_columns()[i]),
        !reviews_columns()[i].nullable <==> i == 0 || i == 1 || i == 2 || i == 5,
        !reviews_columns()[i].is_unique,
{
    reveal_strlit("cluster_id");
    reveal_strlit("decision");
    reveal_strlit("id");
    reveal_strlit("kept_file_id");
    reveal_strlit("notes");
    reveal_strlit("review_context");
    reveal_strlit("reviewed_at");
    assert(follows_its_name(reviews_columns()[0]));
    assert(follows_its_name(reviews_columns()[1]));
    assert(follows_its_name(reviews_columns()[2]));
    assert(follows_its_name(reviews_columns()[3]));
    assert(follows_its_name(reviews_columns()[4]));
    assert(follows_its_name(reviews_columns()[5]));
    assert(follows_its_name(reviews_columns()[6]));
}

/// The columns of the table of the thumbnails are what their names say, only some of them must be
/// filled, and only the path of a recording and the name of a collection must be unique.
pub proof fn thumbnails_columns_follow_their_names(i: int)
    requires
        0 <= i < thumbnails_columns().len(),
    ensures
        thumbnails_columns().len() == 4,
        follows_its_name(thumbnails_columns()[i]),
        !thumbnails_columns()[i].nullable <==> i == 0 || i == 1 || i == 2 || i == 3,
        !thumbnails_columns()[i].is_unique,
{
    reveal_strlit("file_id");
    reveal_strlit("id");
    reveal_strlit("path");
    reveal_strlit("timestamp_ms");
    assert(follows_its_name(thumbnails_columns()[0]));
    assert(follows_its_name(thumbnails_columns()[1]));
    assert(follows_its_name(thumbnails_columns()[2]));
    assert(follows_its_name(thumbnails_columns()[3]));
}

/// The columns of the table of the collections are what their names say, only some of them must be
/// filled, and only the path of a recording and the name of a collection must be unique.
pub proof fn dvrs_columns_follow_their_names(i: int)
    requires
        0 <= i < dvrs_columns().len(),
    ensures
        dvrs_columns().len() == 4,
        follows_its_name(dvrs_columns()[i]),
        !dvrs_columns()[i].nullable <==> i == 0 || i == 1 || i == 2,
        dvrs_columns()[i].is_unique <==> i == 1,
{
    reveal_strlit("created_at");
    reveal_strlit("id");
    reveal_strlit("last_verified_at");
    reveal_strlit("name");
    assert(follows_its_name(dvrs_columns()[0]));
    assert(follows_its_name(dvrs_columns()[1]));
    assert(follows_its_name(dvrs_columns()[2]));
    assert(follows_its_name(dvrs_columns()[3]));
}

/// The columns of the table of the best versions of recordings are what their names say, only some of them must be
/// filled, and only the path of a recording and the name of a collection must be unique.
pub proof fn canonical_content_columns_follow_their_names(i: int)
    requires
        0 <= i < canonical_content_columns().len(),
    ensures
        canonical_content_columns().len() == 11,
        follows_its_name(canonical_content_columns()[i]),
        !canonical_content_columns()[i].nullable <==> i == 0 || i == 1 || i == 2 || i == 5 || i == 9 || i == 10,
        !canonical_content_columns()[i].is_unique,
{
    reveal_strlit("created_at");
    reveal_strlit("duration_ms");
    reveal_strlit("dvr_id");
    reveal_strlit("episode");
    reveal_strlit("file_path");
    reveal_strlit("fingerprint_interval_ms");
    reveal_strlit("fingerprint_timeline");
    reveal_strlit("id");
    reveal_strlit("season");
    reveal_strlit("title");
    reveal_strlit("updated_at");
    assert(follows_its_name(canonical_content_columns()[0]));
    assert(follows_its_name(canonical_content_columns()[1]));
    assert(follows_its_name(canonical_content_columns()[2]));
    assert(follows_its_name(canonical_content_columns()[3]));
    assert(follows_its_name(canonical_content_columns()[4]));
    assert(follows_its_name(canonical_content_columns()[5]));
    assert(follows_its_name(canonical_content_columns()[6]));
    assert(follows_its_name(canonical_content_columns()[7]));
    assert(follows_its_name(canonical_content_columns()[8]));
    assert(follows_its_name(canonical_content_columns()[9]));
    assert(follows_its_name(canonical_content_columns()[10]));
}

/// The columns of the table of the segments of the best versions are what their names say, only some of them must be
/// filled, and only the path of a recording and the name of a collection must be unique.
pub proof fn canonical_segments_columns_follow_their_names(i: int)
    requires
        0 <= i < canonical_segments_columns().len(),
    ensures
        canonical_segments_columns().len() == 8,
        follows_its_name(canonical_segments_columns()[i]),
        !canonical_segments_columns()[i].nullable <==> i == 0 || i == 1 || i == 2 || i == 3 || i == 4 || i == 5 || i == 7,
        !canonical_segments_columns()[i].is_unique,
{
    reveal_strlit("confidence");
    reveal_strlit("content_id");
    reveal_strlit("created_at");
    reveal_strlit("end_ms");
    reveal_strlit("id");
    reveal_strlit("metadata");
    reveal_strlit("segment_type");
    reveal_strlit("start_ms");
    assert(follows_its_name(canonical_segments_columns()[0]));
    assert(follows_its_name(canonical_segments_columns()[1]));
    assert(follows_its_name(canonical_segments_columns()[2]));
    assert(follows_its_name(canonical_segments_columns()[3]));
    assert(follows_its_name(canonical_segments_columns()[4]));
    assert(follows_its_name(canonical_segments_columns()[5]));
    assert(follows_its_name(canonical_segments_columns()[6]));
    assert(follows_its_name(canonical_segments_columns()[7]));
}

/// The columns of the table of the patterns that recur in recordings are what their names say, only some of them must be
/// filled, and only the path of a recording and the name of a collection must be unique.
pub proof fn known_patterns_columns_follow_their_names(i: int)
    requires
        0 <= i < known_patterns_columns().len(),
    ensures
        known_patterns_columns().len() == 10,
        follows_its_name(known_patterns_columns()[i]),
        !known_patterns_columns()[i].nullable <==> i == 0 || i == 1 || i == 4 || i == 5 || i == 6 || i == 7 || i == 8 || i == 9,
        !known_patterns_columns()[i].is_unique,
{
    reveal_strlit("detection_count");
    reveal_strlit("duration_ms");
    reveal_strlit("fingerprint_interval_ms");
    reveal_strlit("fingerprint_timeline");
    reveal_strlit("first_seen_at");
    reveal_strlit("id");
    reveal_strlit("last_seen_at");
    reveal_strlit("name");
    reveal_strlit("pattern_type");
    reveal_strlit("series_title");
    assert(follows_its_name(known_patterns_columns()[0]));
    assert(follows_its_name(known_patterns_columns()[1]));
    assert(follows_its_name(known_patterns_columns()[2]));
    assert(follows_its_name(known_patterns_columns()[3]));
    assert(follows_its_name(known_patterns_columns()[4]));
    assert(follows_its_name(known_patterns_columns()[5]));
    assert(follows_its_name(known_patterns_columns()[6]));
    assert(follows_its_name(known_patterns_columns()[7]));
    assert(follows_its_name(known_patterns_columns()[8]));
    assert(follows_its_name(known_patterns_columns()[9]));
}

/// The columns that later versions add are what their names say.
pub proof fn added_columns_follow_their_names(i: int, k: int)
    requires
        1 <= i < 6,
        0 <= k < version_steps(i).len(),
    ensures
        version_steps(i)[k] matches Step::AddField { table, field } ==> follows_its_name(field),
{
    reveal_strlit("data");
    reveal_strlit("dvr_id");
    reveal_strlit("id");
    reveal_strlit("identified_at");
    reveal_strlit("original_size_bytes");
    reveal_strlit("relative_path");
    reveal_strlit("tmdb_id");
    reveal_strlit("tmdb_media_type");
    reveal_strlit("tmdb_title");
    reveal_strlit("tmdb_year");
    reveal_strlit("transcode_status");
    reveal_strlit("transcoded_at");
    reveal_strlit("transcoded_path");
}

/// A new recording is neither reviewed nor transcoded: what stands for that in the database is what
/// the columns hold where nothing is given.
pub proof fn new_recordings_are_pending() -> (at: (int, int))
    ensures
        0 <= at.0 < files_columns().len(),
        files_columns()[at.0].name@ == "status"@,
        files_columns()[at.0].default_value matches Some(text) && text@ == seq!['\'']
            + FileStatus::Pending.sql() + seq!['\''],
        0 <= at.1 < steps_0002_transcode().len(),
        steps_0002_transcode()[at.1] matches Step::AddField { table, field } && {
            &&& table@ == "files"@
            &&& field.name@ == "transcode_status"@
            &&& field.default_value matches Some(text) && text@ == seq!['\'']
                + TranscodeStatus::Pending.sql() + seq!['\'']
        },
{
    reveal_strlit("'pending'");
    reveal_strlit("pending");
    assert("'pending'"@ =~= seq!['\''] + "pending"@ + seq!['\'']);
    (14, 3)
}

/// What belongs to a recording, to a cluster or to a collection goes with it when it is deleted; a
/// review outlives the file that it kept.
pub proof fn rows_go_with_what_they_belong_to(i: int)
    ensures
        0 <= i < fingerprints_columns().len() ==> (
        fingerprints_columns()[i].reference matches Some(r) ==> r.table@ == "files"@ && r.on_delete
            == ReferentialAction::Cascade),
        0 <= i < thumbnails_columns().len() ==> (
        thumbnails_columns()[i].reference matches Some(r) ==> r.table@ == "files"@ && r.on_delete
            == ReferentialAction::Cascade),
        0 <= i < reviews_columns().len() ==> (reviews_columns()[i].reference matches Some(r) ==> {
            ||| r.table@ == "clusters"@ && r.on_delete == ReferentialAction::Cascade && i == 1
            ||| r.table@ == "files"@ && r.on_delete == ReferentialAction::SetNull && i == 3
        }),
        0 <= i < canonical_content_columns().len() ==> (
        canonical_content_columns()[i].reference matches Some(r) ==> r.table@ == "dvrs"@
            && r.on_delete == ReferentialAction::Cascade),
        0 <= i < canonical_segments_columns().len() ==> (
        canonical_segments_columns()[i].reference matches Some(r) ==> r.table@
            == "canonical_content"@ && r.on_delete == ReferentialAction::Cascade),
{
}

/// The name of an index begins with that of its table, and the name of its column follows; only the
/// indexes of one version shorten the latter.
pub proof fn indexes_are_named_after_their_table(i: int, k: int)
    requires
        0 <= i < 6,
        0 <= k < version_steps(i).len(),
    ensures
        version_steps(i)[k] matches Step::AddIndex { table, name, column } ==> {
            &&& name@.len() > 5 + table@.len()
            &&& name@.take((5 + table@.len()) as int) == "idx_"@ + table@ + "_"@
            &&& i != 3 ==> name@ == "idx_"@ + table@ + "_"@ + column@
        },
{
    reveal_strlit("idx_");
    reveal_strlit("_");
    reveal_strlit("canonical_content");
    reveal_strlit("canonical_segments");
    reveal_strlit("canonical_sources");
    reveal_strlit("claimed_title");
    reveal_strlit("cluster_members");
    reveal_strlit("content_id");
    reveal_strlit("duration_ms");
    reveal_strlit("dvr_id");
    reveal_strlit("dvrs");
    reveal_strlit("file_id");
    reveal_strlit("files");
    reveal_strlit("fingerprints");
    reveal_strlit("idx_canonical_content_dvr_id");
    reveal_strlit("idx_canonical_content_title");
    reveal_strlit("idx_canonical_segments_content_id");
    reveal_strlit("idx_canonical_segments_type");
    reveal_strlit("idx_canonical_sources_content_id");
    reveal_strlit("idx_cluster_members_file_id");
    reveal_strlit("idx_dvrs_name");
    reveal_strlit("idx_files_claimed_title");
    reveal_strlit("idx_files_dvr_id");
    reveal_strlit("idx_files_status");
    reveal_strlit("idx_files_tmdb_id");
    reveal_strlit("idx_files_transcode_status");
    reveal_strlit("idx_fingerprints_file_id");
    reveal_strlit("idx_known_patterns_duration");
    reveal_strlit("idx_known_patterns_series");
    reveal_strlit("idx_known_patterns_type");
    reveal_strlit("idx_pattern_detections_content_id");
    reveal_strlit("idx_pattern_detections_file_id");
    reveal_strlit("idx_pattern_detections_pattern_id");
    reveal_strlit("idx_thumbnails_file_id");
    reveal_strlit("known_patterns");
    reveal_strlit("name");
    reveal_strlit("pattern_detections");
    reveal_strlit("pattern_id");
    reveal_strlit("pattern_type");
    reveal_strlit("segment_type");
    reveal_strlit("series_title");
    reveal_strlit("status");
    reveal_strlit("thumbnails");
    reveal_strlit("title");
    reveal_strlit("tmdb_id");
    reveal_strlit("transcode_status");
    if let Step::AddIndex { table, name, column } = version_steps(i)[k] {
        assert(name@.take((5 + table@.len()) as int) =~= "idx_"@ + table@ + "_"@);
        if i != 3 {
            assert(name@ =~= "idx_"@ + table@ + "_"@ + column@);
        }
    }
}

/// A version that refers to a table of another version builds upon that version: the best versions of
/// recordings belong to collections.
pub proof fn best_versions_build_upon_collections() -> (at: (int, int, int))
    ensures
        version_base(3) == Some(version_name(2)),
        0 <= at.0 < version_steps(2).len(),
        version_steps(2)[at.0] matches Step::CreateTable { name, fields } && name@ == "dvrs"@,
        0 <= at.1 < version_steps(3).len(),
        version_steps(3)[at.1] matches Step::CreateTable { name, fields } && 0 <= at.2
            < fields.len() && (fields[at.2].reference matches Some(r) && r.table@ == "dvrs"@),
{
    (0, 0, 1)
}

/// The tables that others refer to are created by the name by which they are referred to, with an
/// identifier.
pub proof fn tables_that_are_referred_to_exist() -> (at: (int, int, int, int))
    ensures
        version_steps(0)[at.0] matches Step::CreateTable { name, fields } && name@ == "files"@
            && fields == files_columns(),
        version_steps(0)[at.1] matches Step::CreateTable { name, fields } && name@ == "clusters"@
            && fields == clusters_columns(),
        version_steps(2)[at.2] matches Step::CreateTable { name, fields } && name@ == "dvrs"@
            && fields == dvrs_columns(),
        version_steps(3)[at.3] matches Step::CreateTable { name, fields } && name@
            == "canonical_content"@ && fields == canonical_content_columns(),
        0 <= at.0 < version_steps(0).len(),
        0 <= at.1 < version_steps(0).len(),
        0 <= at.2 < version_steps(2).len(),
        0 <= at.3 < version_steps(3).len(),
{
    (1, 4, 0, 0)
}

}
