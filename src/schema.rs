//! The on-disk schema and its numbered migrations.
use vstd::prelude::*;
use vstd::string::*;

verus! {

/// Tables of the store.
pub const SCHEMA_SQL: &'static str = "
-- Users table
CREATE TABLE IF NOT EXISTS users (
    id TEXT PRIMARY KEY,
    created_at TEXT NOT NULL DEFAULT (datetime('now')),
    updated_at TEXT NOT NULL DEFAULT (datetime('now')),
    metadata TEXT DEFAULT '{}' -- JSON metadata
);

-- Sessions table
CREATE TABLE IF NOT EXISTS sessions (
    id TEXT PRIMARY KEY,
    user_id TEXT NOT NULL,
    name TEXT,
    created_at TEXT NOT NULL DEFAULT (datetime('now')),
    last_active TEXT NOT NULL DEFAULT (datetime('now')),
    tags TEXT DEFAULT '[]', -- JSON array
    metadata TEXT DEFAULT '{}', -- JSON metadata
    FOREIGN KEY (user_id) REFERENCES users (id) ON DELETE CASCADE
);

-- Main memories table
CREATE TABLE IF NOT EXISTS memories (
    id TEXT PRIMARY KEY,
    user_id TEXT NOT NULL,
    session_id TEXT NOT NULL,
    content TEXT NOT NULL,
    content_vector TEXT, -- For future vector search support
    metadata TEXT DEFAULT '{}', -- JSON metadata
    created_at TEXT NOT NULL DEFAULT (datetime('now')),
    updated_at TEXT NOT NULL DEFAULT (datetime('now')),
    expires_at TEXT, -- NULL means no expiration
    importance REAL NOT NULL DEFAULT 0.5 CHECK (importance >= 0.0 AND importance <= 1.0),
    ttl_hours INTEGER, -- Time to live in hours
    is_compressed INTEGER NOT NULL DEFAULT 0, -- Boolean flag
    compressed_from TEXT DEFAULT '[]', -- JSON array of original memory IDs
    FOREIGN KEY (user_id) REFERENCES users (id) ON DELETE CASCADE,
    FOREIGN KEY (session_id) REFERENCES sessions (id) ON DELETE CASCADE
);

-- Compressed memories table (for storing compression metadata)
CREATE TABLE IF NOT EXISTS compressed_memories (
    id TEXT PRIMARY KEY,
    original_ids TEXT NOT NULL, -- JSON array of original memory IDs
    user_id TEXT NOT NULL,
    session_id TEXT NOT NULL,
    summary TEXT NOT NULL,
    key_points TEXT DEFAULT '[]', -- JSON array
    date_range_start TEXT NOT NULL,
    date_range_end TEXT NOT NULL,
    original_count INTEGER NOT NULL,
    combined_importance REAL NOT NULL,
    compressed_at TEXT NOT NULL DEFAULT (datetime('now')),
    FOREIGN KEY (user_id) REFERENCES users (id) ON DELETE CASCADE,
    FOREIGN KEY (session_id) REFERENCES sessions (id) ON DELETE CASCADE
);

-- Session summaries table
CREATE TABLE IF NOT EXISTS session_summaries (
    id TEXT PRIMARY KEY,
    session_id TEXT NOT NULL UNIQUE,
    user_id TEXT NOT NULL,
    summary_text TEXT NOT NULL,
    key_topics TEXT DEFAULT '[]', -- JSON array
    memory_count INTEGER NOT NULL DEFAULT 0,
    date_range_start TEXT NOT NULL,
    date_range_end TEXT NOT NULL,
    importance_score REAL NOT NULL DEFAULT 0.5,
    created_at TEXT NOT NULL DEFAULT (datetime('now')),
    updated_at TEXT NOT NULL DEFAULT (datetime('now')),
    FOREIGN KEY (user_id) REFERENCES users (id) ON DELETE CASCADE,
    FOREIGN KEY (session_id) REFERENCES sessions (id) ON DELETE CASCADE
);

-- Decay statistics table
CREATE TABLE IF NOT EXISTS decay_runs (
    id TEXT PRIMARY KEY,
    started_at TEXT NOT NULL DEFAULT (datetime('now')),
    completed_at TEXT,
    memories_expired INTEGER DEFAULT 0,
    memories_compressed INTEGER DEFAULT 0,
    sessions_summarized INTEGER DEFAULT 0,
    total_memories_before INTEGER DEFAULT 0,
    total_memories_after INTEGER DEFAULT 0,
    storage_saved_bytes INTEGER DEFAULT 0,
    error_message TEXT,
    status TEXT NOT NULL DEFAULT 'running' CHECK (status IN ('running', 'completed', 'failed'))
);

-- Configuration table for storing system settings
CREATE TABLE IF NOT EXISTS system_config (
    key TEXT PRIMARY KEY,
    value TEXT NOT NULL,
    created_at TEXT NOT NULL DEFAULT (datetime('now')),
    updated_at TEXT NOT NULL DEFAULT (datetime('now'))
);
";

/// Indexes of the store.
pub const INDEXES_SQL: &'static str = "
-- Indexes for memories table
CREATE INDEX IF NOT EXISTS idx_memories_user_id ON memories (user_id);
CREATE INDEX IF NOT EXISTS idx_memories_session_id ON memories (session_id);
CREATE INDEX IF NOT EXISTS idx_memories_created_at ON memories (created_at);
CREATE INDEX IF NOT EXISTS idx_memories_expires_at ON memories (expires_at);
CREATE INDEX IF NOT EXISTS idx_memories_importance ON memories (importance);
CREATE INDEX IF NOT EXISTS idx_memories_user_created ON memories (user_id, created_at DESC);
CREATE INDEX IF NOT EXISTS idx_memories_session_created ON memories (session_id, created_at DESC);
CREATE INDEX IF NOT EXISTS idx_memories_user_importance ON memories (user_id, importance DESC);
CREATE INDEX IF NOT EXISTS idx_memories_active ON memories (expires_at) WHERE expires_at IS NULL OR expires_at > datetime('now');

-- Indexes for sessions table
CREATE INDEX IF NOT EXISTS idx_sessions_user_id ON sessions (user_id);
CREATE INDEX IF NOT EXISTS idx_sessions_last_active ON sessions (last_active DESC);
CREATE INDEX IF NOT EXISTS idx_sessions_user_active ON sessions (user_id, last_active DESC);

-- Indexes for compressed_memories table
CREATE INDEX IF NOT EXISTS idx_compressed_user_id ON compressed_memories (user_id);
CREATE INDEX IF NOT EXISTS idx_compressed_session_id ON compressed_memories (session_id);
CREATE INDEX IF NOT EXISTS idx_compressed_at ON compressed_memories (compressed_at);

-- Indexes for session_summaries table
CREATE INDEX IF NOT EXISTS idx_summaries_user_id ON session_summaries (user_id);
CREATE INDEX IF NOT EXISTS idx_summaries_created ON session_summaries (created_at DESC);

-- Indexes for decay_runs table
CREATE INDEX IF NOT EXISTS idx_decay_runs_started ON decay_runs (started_at DESC);
CREATE INDEX IF NOT EXISTS idx_decay_runs_status ON decay_runs (status);
";

/// Full-text index over memory content and summaries, kept in sync by
/// triggers.
pub const FTS_SQL: &'static str = "
-- Create FTS5 virtual table for full-text search on memory content
CREATE VIRTUAL TABLE IF NOT EXISTS memories_fts USING fts5(
    content,
    content='memories',
    content_rowid='rowid'
);

-- Triggers to keep FTS5 table in sync with memories table
CREATE TRIGGER IF NOT EXISTS memories_fts_insert AFTER INSERT ON memories BEGIN
    INSERT INTO memories_fts(rowid, content) VALUES (new.rowid, new.content);
END;

CREATE TRIGGER IF NOT EXISTS memories_fts_delete AFTER DELETE ON memories BEGIN
    INSERT INTO memories_fts(memories_fts, rowid, content) VALUES ('delete', old.rowid, old.content);
END;

CREATE TRIGGER IF NOT EXISTS memories_fts_update AFTER UPDATE ON memories BEGIN
    INSERT INTO memories_fts(memories_fts, rowid, content) VALUES ('delete', old.rowid, old.content);
    INSERT INTO memories_fts(rowid, content) VALUES (new.rowid, new.content);
END;

-- Create additional FTS5 table for session summaries (for future use)
CREATE VIRTUAL TABLE IF NOT EXISTS summaries_fts USING fts5(
    summary_text,
    key_topics,
    content='session_summaries',
    content_rowid='rowid'
);

-- Triggers for summaries FTS
CREATE TRIGGER IF NOT EXISTS summaries_fts_insert AFTER INSERT ON session_summaries BEGIN
    INSERT INTO summaries_fts(rowid, summary_text, key_topics) 
    VALUES (new.rowid, new.summary_text, new.key_topics);
END;

CREATE TRIGGER IF NOT EXISTS summaries_fts_delete AFTER DELETE ON session_summaries BEGIN
    INSERT INTO summaries_fts(summaries_fts, rowid, summary_text, key_topics) 
    VALUES ('delete', old.rowid, old.summary_text, old.key_topics);
END;

CREATE TRIGGER IF NOT EXISTS summaries_fts_update AFTER UPDATE ON session_summaries BEGIN
    INSERT INTO summaries_fts(summaries_fts, rowid, summary_text, key_topics) 
    VALUES ('delete', old.rowid, old.summary_text, old.key_topics);
    INSERT INTO summaries_fts(rowid, summary_text, key_topics) 
    VALUES (new.rowid, new.summary_text, new.key_topics);
END;
";

/// Statements that undo the initial schema.
pub const INITIAL_DOWN_SQL: &'static str = "
                DROP TABLE IF EXISTS decay_runs;
                DROP TABLE IF EXISTS system_config;
                DROP TABLE IF EXISTS session_summaries;
                DROP TABLE IF EXISTS compressed_memories;
                DROP TRIGGER IF EXISTS summaries_fts_update;
                DROP TRIGGER IF EXISTS summaries_fts_delete;
                DROP TRIGGER IF EXISTS summaries_fts_insert;
                DROP TABLE IF EXISTS summaries_fts;
                DROP TRIGGER IF EXISTS memories_fts_update;
                DROP TRIGGER IF EXISTS memories_fts_delete;
                DROP TRIGGER IF EXISTS memories_fts_insert;
                DROP TABLE IF EXISTS memories_fts;
                DROP TABLE IF EXISTS memories;
                DROP TABLE IF EXISTS sessions;
                DROP TABLE IF EXISTS users;
            ";

/// Key of the schema version in `system_config`.
pub const SCHEMA_VERSION_KEY: &'static str = "schema_version";

/// One step of the schema's history.
#[derive(Debug, Clone)]
pub struct Migration {
    pub version: u32,
    pub description: String,
    pub up_sql: String,
    pub down_sql: String,
}

/// The SQL that creates the initial schema: tables, indexes and full-text
/// index, one block per line.
pub open spec fn initial_up_sql() -> Seq<char> {
    SCHEMA_SQL@ + "\n"@ + INDEXES_SQL@ + "\n"@ + FTS_SQL@
}

/// The versions of a list of migrations are strictly increasing.
pub open spec fn ordered(m: Seq<Migration>) -> bool {
    forall|i: int, j: int| 0 <= i < j < m.len() ==> m[i].version < m[j].version
}

/// All migrations, oldest first.
pub fn get_migrations() -> (r: Vec<Migration>)
    ensures
        r@.len() == 1,
        r@[0].version == 1,
        r@[0].description@ == "Initial schema"@,
        r@[0].up_sql@ == initial_up_sql(),
        r@[0].down_sql@ == INITIAL_DOWN_SQL@,
        ordered(r@),
{
    let mut up = SCHEMA_SQL.to_string();
    up.append("\n");
    up.append(INDEXES_SQL);
    up.append("\n");
    up.append(FTS_SQL);
    let mut r: Vec<Migration> = Vec::new();
    r.push(
        Migration {
            version: 1,
            description: "Initial schema".to_string(),
            up_sql: up,
            down_sql: INITIAL_DOWN_SQL.to_string(),
        },
    );
    r
}

/// The latest version among the migrations, 0 when there are none.
pub fn latest_version(migrations: &Vec<Migration>) -> (r: u32)
    ensures
        forall|i: int| 0 <= i < migrations@.len() ==> migrations@[i].version <= r,
        migrations@.len() == 0 ==> r == 0,
        migrations@.len() > 0 ==> exists|i: int|
            0 <= i < migrations@.len() && migrations@[i].version == r,
{
    let mut best: u32 = 0;
    let mut i: usize = 0;
    while i < migrations.len()
        invariant
            i <= migrations@.len(),
            forall|j: int| 0 <= j < i ==> migrations@[j].version <= best,
            i == 0 ==> best == 0,
            i > 0 ==> exists|j: int| 0 <= j < i && migrations@[j].version == best,
        decreases migrations@.len() - i,
    {
        if i == 0 || migrations[i].version > best {
            best = migrations[i].version;
        }
        i = i + 1;
    }
    best
}

/// The positions of the migrations newer than `current`, in order: the ones
/// that opening a store at schema version `current` runs.
pub fn pending_migrations(migrations: &Vec<Migration>, current: u32) -> (r: Vec<usize>)
    ensures
        forall|k: int| 0 <= k < r@.len() ==> r@[k] < migrations@.len()
            && migrations@[r@[k] as int].version > current,
        forall|i: int|
            0 <= i < migrations@.len() && migrations@[i].version > current ==> r@.contains(
                i as usize,
            ),
        forall|a: int, b: int| 0 <= a < b < r@.len() ==> r@[a] < r@[b],
{
    let mut r: Vec<usize> = Vec::new();
    let mut i: usize = 0;
    while i < migrations.len()
        invariant
            i <= migrations@.len(),
            forall|k: int| 0 <= k < r@.len() ==> r@[k] < i
                && migrations@[r@[k] as int].version > current,
            forall|j: int|
                0 <= j < i && migrations@[j].version > current ==> r@.contains(j as usize),
            forall|a: int, b: int| 0 <= a < b < r@.len() ==> r@[a] < r@[b],
        decreases migrations@.len() - i,
    {
        if migrations[i].version > current {
            let ghost before = r@;
            r.push(i);
            assert(r@ == before.push(i));
            assert(r@[r@.len() - 1] == i);
            assert forall|j: int|
                0 <= j < i + 1 && migrations@[j].version > current implies r@.contains(
                    j as usize,
                ) by {
                if j < i {
                    let k = choose|k: int| 0 <= k < before.len() && before[k] == j as usize;
                    assert(r@[k] == j as usize);
                } else {
                    assert(r@[r@.len() - 1] == j as usize);
                }
            }
        }
        i = i + 1;
    }
    r
}

} // verus!
