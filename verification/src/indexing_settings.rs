//! The settings of an index that indexing reads.

use vstd::prelude::*;

verus! {

/// Direction of a sort.
#[derive(Clone, Copy, Debug, PartialEq, Eq, Structural)]
pub enum SortOrder {
    /// Smallest first.
    Asc,
    /// Largest first.
    Desc,
}

/// How the documents of a split are ordered.
#[derive(Clone, Debug)]
pub enum SortBy {
    /// In the order in which they were added.
    DocId,
    /// By relevance to the query.
    Score { order: SortOrder },
    /// By the value of a fast field.
    FastField { field_name: String, order: SortOrder },
}

/// Numbers of splits that a merge takes.
#[derive(Clone, Copy, Debug, PartialEq, Eq, Structural)]
pub struct MergePolicySettings {
    /// Number of splits from which a merge is worth it.
    pub merge_factor: usize,
    /// Largest number of splits of a merge.
    pub max_merge_factor: usize,
}

impl Default for MergePolicySettings {
    fn default() -> (settings: MergePolicySettings)
        ensures
            settings.merge_factor == 10,
            settings.max_merge_factor == 12,
    {
        MergePolicySettings { merge_factor: 10, max_merge_factor: 12 }
    }
}

/// The settings of an index that indexing reads.
#[derive(Clone, Debug)]
pub struct IndexingSettings {
    /// Name of the field that holds the timestamp of a document, if any.
    pub timestamp_field: Option<String>,
    /// Name of the fast field by which the documents of a split are sorted,
    /// if any.
    pub sort_field: Option<String>,
    /// Direction of that sort; descending where none is given.
    pub sort_order: Option<SortOrder>,
    /// Seconds after which a workbench is committed.
    pub commit_timeout_secs: usize,
    /// Size of a block of the document store, in bytes.
    pub docstore_blocksize: usize,
    /// Compression level of the document store.
    pub docstore_compression_level: i32,
    /// Number of documents from which a split is committed, and is mature.
    pub split_num_docs_target: usize,
    /// Whether splits are merged.
    pub merge_enabled: bool,
    /// Numbers of splits that a merge takes.
    pub merge_policy: MergePolicySettings,
}

impl IndexingSettings {
    /// How the settings `sort_field` and `sort_order` ask to sort: by the
    /// sort field where there is one, descending unless told otherwise, else
    /// in the order of arrival.
    pub open spec fn sort_by_spec(self) -> SortBy {
        match self.sort_field {
            Some(field_name) => SortBy::FastField {
                field_name,
                order: match self.sort_order {
                    Some(order) => order,
                    None => SortOrder::Desc,
                },
            },
            None => SortBy::DocId,
        }
    }

    /// How the documents of a split are to be sorted.
    pub fn sort_by(&self) -> (sort_by: SortBy)
        ensures
            sort_by == self.sort_by_spec(),
    {
        match &self.sort_field {
            Some(field_name) => {
                let order = match self.sort_order {
                    Some(order) => order,
                    None => SortOrder::Desc,
                };
                SortBy::FastField { field_name: field_name.clone(), order }
            },
            None => SortBy::DocId,
        }
    }
}

/// The field by which the documents of a split are sorted.
#[derive(Clone, Debug)]
pub struct IndexSortByField {
    pub field: String,
    pub order: SortOrder,
}

/// The settings that a split is built with.
#[derive(Clone, Debug)]
pub struct IndexSettings {
    /// The field by which the documents are sorted, if they are.
    pub sort_by_field: Option<IndexSortByField>,
    /// Size of a block of the document store, in bytes.
    pub docstore_blocksize: usize,
    /// Level at which the document store is compressed, with Zstandard.
    pub docstore_compression_level: i32,
}

impl IndexSettings {
    /// The settings of the splits of an index with the settings `settings`:
    /// sorted where `settings` asks for a sort by a fast field, with the
    /// document store that `settings` describes.
    pub open spec fn of(settings: IndexingSettings) -> IndexSettings {
        IndexSettings {
            sort_by_field: match settings.sort_by_spec() {
                SortBy::FastField { field_name, order } => Some(
                    IndexSortByField { field: field_name, order },
                ),
                _ => None,
            },
            docstore_blocksize: settings.docstore_blocksize,
            docstore_compression_level: settings.docstore_compression_level,
        }
    }

    /// The settings of the splits of an index with the settings `settings`.
    pub fn from_indexing_settings(settings: &IndexingSettings) -> (index_settings: IndexSettings)
        ensures
            index_settings == IndexSettings::of(*settings),
    {
        let sort_by_field = match settings.sort_by() {
            SortBy::DocId | SortBy::Score { .. } => None,
            SortBy::FastField { field_name, order } => Some(
                IndexSortByField { field: field_name, order },
            ),
        };
        IndexSettings {
            sort_by_field,
            docstore_blocksize: settings.docstore_blocksize,
            docstore_compression_level: settings.docstore_compression_level,
        }
    }

    /// A copy of the settings.
    pub fn duplicate(&self) -> (copy: IndexSettings)
        ensures
            copy == *self,
    {
        IndexSettings {
            sort_by_field: match &self.sort_by_field {
                Some(sort_by_field) => Some(
                    IndexSortByField {
                        field: sort_by_field.field.clone(),
                        order: sort_by_field.order,
                    },
                ),
                None => None,
            },
            docstore_blocksize: self.docstore_blocksize,
            docstore_compression_level: self.docstore_compression_level,
        }
    }
}

} // verus!
