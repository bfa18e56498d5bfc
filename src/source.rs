//! Rows and where they come from: the row form, warehouse statements,
//! source and credential choice, paging, and rows of an input document.

use vstd::prelude::*;
use crate::config::{CommonMappingFields, Config, SnowflakeConfig, SourceConfig};
use crate::error::SyncError;
use crate::json::{
    JsonModel, JsonValue, clone_pairs, find_named, lemma_models_of, lookup, models_of, opt_model,
    pairs_model,
};
use crate::text::{append_decimal, decimal};

verus! {

/// One source row: column name -> value, names as the source reports them.
pub struct LogicalRow {
    pub values: Vec<(String, JsonValue)>,
}

impl LogicalRow {
    pub open spec fn model(&self) -> Seq<(Seq<char>, JsonModel)> {
        pairs_model(self.values@)
    }

    /// The value of column `key`.
    pub fn get(&self, key: &str) -> (r: Option<&JsonValue>)
        ensures
            opt_model(r) == lookup(self.model(), key@),
    {
        find_named(&self.values, key)
    }

    /// A copy with the same model.
    pub fn deep_clone(&self) -> (r: LogicalRow)
        ensures
            r.model() == self.model(),
    {
        LogicalRow { values: clone_pairs(&self.values) }
    }
}

/// The models of a sequence of rows.
pub open spec fn rows_model(rows: Seq<LogicalRow>) -> Seq<Seq<(Seq<char>, JsonModel)>> {
    rows.map_values(|r: LogicalRow| r.model())
}

pub open spec fn opt_text(o: Option<&str>) -> Option<Seq<char>> {
    match o {
        Some(s) => Some(s@),
        None => None,
    }
}

pub open spec fn where_suffix(w: Option<String>) -> Seq<char> {
    match w {
        Some(w) => " WHERE "@ + w@,
        None => Seq::empty(),
    }
}

/// The warehouse statement of a mapping, if its source names one.
/// A user `select` is used verbatim; a stream gets no watermark predicate;
/// a table gets `<updated_at_column> > '<watermark>'` when both are present.
pub open spec fn generated_sql(common: &CommonMappingFields, watermark: Option<Seq<char>>) -> Option<
    Seq<char>,
> {
    let src = common.source;
    if src.select is Some {
        Some(src.select->0@)
    } else if src.stream is Some {
        Some("SELECT * FROM "@ + src.stream->0@ + where_suffix(src.where_clause))
    } else if src.table is Some {
        let base = "SELECT * FROM "@ + src.table->0@ + where_suffix(src.where_clause);
        if watermark is Some && common.delta is Some {
            let joint = if src.where_clause is Some {
                " AND "@
            } else {
                " WHERE "@
            };
            Some(base + joint + common.delta->0.updated_at_column@ + " > '"@ + watermark->0 + "'"@)
        } else {
            Some(base)
        }
    } else {
        None
    }
}

fn append_where(sql: &mut String, w: &Option<String>)
    ensures
        final(sql)@ == old(sql)@ + where_suffix(*w),
{
    if let Some(w) = w {
        sql.append(" WHERE ");
        sql.append(w.as_str());
    }
}

/// The statement that reads a mapping's rows from the warehouse.
pub fn build_sql(common: &CommonMappingFields, watermark: Option<&str>) -> (r: Result<String, SyncError>)
    ensures
        match generated_sql(common, opt_text(watermark)) {
            Some(q) => r matches Ok(s) && s@ == q,
            None => r matches Err(SyncError::NoWarehouseQuery { mapping }) && mapping@
                == common.name@,
        },
{
    let src = &common.source;
    if let Some(sel) = &src.select {
        return Ok(sel.clone());
    }
    if let Some(stream) = &src.stream {
        let mut sql = String::from_str("SELECT * FROM ");
        sql.append(stream.as_str());
        append_where(&mut sql, &src.where_clause);
        return Ok(sql);
    }
    if let Some(table) = &src.table {
        let mut sql = String::from_str("SELECT * FROM ");
        sql.append(table.as_str());
        append_where(&mut sql, &src.where_clause);
        if let (Some(wm), Some(delta)) = (watermark, &common.delta) {
            if src.where_clause.is_some() {
                sql.append(" AND ");
            } else {
                sql.append(" WHERE ");
            }
            sql.append(delta.updated_at_column.as_str());
            sql.append(" > '");
            sql.append(wm);
            sql.append("'");
        }
        return Ok(sql);
    }
    Err(SyncError::NoWarehouseQuery { mapping: common.name.clone() })
}

/// Where a mapping's rows are read from.
pub enum SourcePlan {
    /// A JSON document at this path.
    File(String),
    /// The warehouse, through `build_sql`.
    Warehouse,
}

pub open spec fn names_warehouse_query(src: &SourceConfig) -> bool {
    src.select is Some || src.stream is Some || src.table is Some
}

/// Chooses the source of a mapping: a warehouse query when the warehouse is
/// configured and the source names one, else the file, else the warehouse
/// when it is configured.
pub fn plan_source(cfg: &Config, common: &CommonMappingFields) -> (r: Result<SourcePlan, SyncError>)
    ensures
        cfg.snowflake is Some && names_warehouse_query(&common.source) ==> r matches Ok(
            SourcePlan::Warehouse,
        ),
        !(cfg.snowflake is Some && names_warehouse_query(&common.source))
            && common.source.file is Some ==> (r matches Ok(SourcePlan::File(p)) && p@
            == common.source.file->0@),
        common.source.file is None && cfg.snowflake is Some ==> r matches Ok(
            SourcePlan::Warehouse,
        ),
        common.source.file is None && cfg.snowflake is None ==> (r matches Err(
            SyncError::NoSource { mapping },
        ) && mapping@ == common.name@),
{
    let src = &common.source;
    let warehouse = cfg.snowflake.is_some();
    if warehouse && (src.select.is_some() || src.stream.is_some() || src.table.is_some()) {
        return Ok(SourcePlan::Warehouse);
    }
    if let Some(file) = &src.file {
        return Ok(SourcePlan::File(file.clone()));
    }
    if warehouse {
        return Ok(SourcePlan::Warehouse);
    }
    Err(SyncError::NoSource { mapping: common.name.clone() })
}

/// How the warehouse session authenticates.
pub enum AuthPlan {
    /// Key-pair: the encrypted key at `key_path`, opened with `passphrase`.
    KeyPair { key_path: String, passphrase: String },
    Password(String),
}

/// Key-pair when a private key is configured (the password, if any, is its
/// passphrase), else the password; neither is an error.
pub fn plan_auth(sf: &SnowflakeConfig) -> (r: Result<AuthPlan, SyncError>)
    ensures
        sf.private_key_path is Some ==> (r matches Ok(AuthPlan::KeyPair { key_path, passphrase })
            && key_path@ == sf.private_key_path->0@ && passphrase@ == (match sf.password {
            Some(p) => p@,
            None => Seq::empty(),
        })),
        sf.private_key_path is None && sf.password is Some ==> (r matches Ok(
            AuthPlan::Password(p),
        ) && p@ == sf.password->0@),
        sf.private_key_path is None && sf.password is None ==> r matches Err(
            SyncError::NoCredentials,
        ),
{
    if let Some(path) = &sf.private_key_path {
        let passphrase = match &sf.password {
            Some(p) => p.clone(),
            None => String::new(),
        };
        return Ok(AuthPlan::KeyPair { key_path: path.clone(), passphrase });
    }
    match &sf.password {
        Some(p) => Ok(AuthPlan::Password(p.clone())),
        None => Err(SyncError::NoCredentials),
    }
}

/// The page size of a paged fetch: a positive `fetch_batch_size`, with a
/// delta spec and a generated statement; otherwise the fetch is one query.
pub fn page_size(sf: &SnowflakeConfig, common: &CommonMappingFields) -> (r: Option<usize>)
    ensures
        r == (if sf.fetch_batch_size is Some && sf.fetch_batch_size->0 > 0 && common.delta is Some
            && common.source.select is None {
            Some(sf.fetch_batch_size->0)
        } else {
            None
        }),
{
    match sf.fetch_batch_size {
        Some(b) => {
            if b > 0 && common.delta.is_some() && common.source.select.is_none() {
                Some(b)
            } else {
                None
            }
        },
        None => None,
    }
}

pub open spec fn paged_text(base: Seq<char>, column: Seq<char>, size: nat, offset: nat) -> Seq<char> {
    base + " ORDER BY "@ + column + " LIMIT "@ + decimal(size) + " OFFSET "@ + decimal(offset)
}

/// One page of a paged fetch, ordered by the updated-at column.
pub fn paged_sql(base: &str, order_column: &str, batch_size: usize, offset: usize) -> (r: String)
    ensures
        r@ == paged_text(base@, order_column@, batch_size as nat, offset as nat),
{
    let mut sql = String::from_str(base);
    sql.append(" ORDER BY ");
    sql.append(order_column);
    sql.append(" LIMIT ");
    append_decimal(&mut sql, batch_size as u64);
    sql.append(" OFFSET ");
    append_decimal(&mut sql, offset as u64);
    sql
}

/// After a page of `page_len` rows at `offset`: the next offset, or `None`
/// when the page was empty or short and the fetch is over.
pub fn next_page_offset(offset: usize, batch_size: usize, page_len: usize) -> (r: Option<usize>)
    requires
        offset + page_len <= usize::MAX,
    ensures
        r == (if page_len == 0 || page_len < batch_size {
            None
        } else {
            Some((offset + page_len) as usize)
        }),
{
    if page_len == 0 || page_len < batch_size {
        None
    } else {
        Some(offset + page_len)
    }
}

/// The rows of an input document: it must be an array of objects.
pub fn rows_from_document(doc: &JsonValue, path: &str) -> (r: Result<Vec<LogicalRow>, SyncError>)
    ensures
        !(doc.model() is Array) ==> (r matches Err(SyncError::NotAnArray { path: p }) && p@
            == path@),
        doc.model() is Array ==> ({
            let items = doc.model()->Array_0;
            &&& (r is Ok <==> forall|i: int| 0 <= i < items.len() ==> #[trigger] items[i] is Object)
            &&& (r matches Ok(rows) ==> rows.len() == items.len() && forall|i: int|
                0 <= i < items.len() ==> items[i] == JsonModel::Object(#[trigger] rows@[i].model()))
            &&& (r matches Err(e) ==> e matches SyncError::BadInput { row, path: p } && p@ == path@
                && row < items.len() && !(items[row as int] is Object) && forall|j: int|
                0 <= j < row ==> #[trigger] items[j] is Object)
        }),
{
    match doc {
        JsonValue::Array(items) => {
            proof {
                lemma_models_of(items@);
            }
            let ghost ms = models_of(items@);
            let mut rows: Vec<LogicalRow> = Vec::new();
            let mut i: usize = 0;
            while i < items.len()
                invariant
                    doc.model() == JsonModel::Array(ms),
                    ms == models_of(items@),
                    ms.len() == items.len(),
                    forall|j: int| 0 <= j < items.len() ==> #[trigger] ms[j] == items@[j].model(),
                    i <= items.len(),
                    rows.len() == i,
                    forall|j: int| 0 <= j < i ==> #[trigger] ms[j] is Object,
                    forall|j: int|
                        0 <= j < i ==> ms[j] == JsonModel::Object(#[trigger] rows@[j].model()),
                decreases items.len() - i,
            {
                match &items[i] {
                    JsonValue::Object(pairs) => {
                        rows.push(LogicalRow { values: clone_pairs(pairs) });
                    },
                    _ => {
                        return Err(SyncError::BadInput { row: i, path: String::from_str(path) });
                    },
                }
                i += 1;
            }
            Ok(rows)
        },
        _ => Err(SyncError::NotAnArray { path: String::from_str(path) }),
    }
}

} // verus!
