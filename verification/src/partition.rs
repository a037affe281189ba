//! How a partitioned table is split: by hash or by key, each partition
//! with a name of its own under the parent table's name.

use vstd::prelude::*;
use vstd::string::StringExecFns;

verus! {

/// One partition: its name, and the name it had before a rename.
#[derive(Debug, Default)]
pub struct PartitionDefinition {
    pub name: String,
    pub origin_name: Option<String>,
}

/// Hash partitioning: rows are spread by a hash of an expression.
#[derive(Debug)]
pub struct HashPartitionInfo {
    pub version: i32,
    pub partition_definitions: Vec<PartitionDefinition>,
    pub expr: Vec<u8>,
    pub linear: bool,
}

/// Key partitioning: rows are spread by the named key columns.
#[derive(Debug)]
pub struct KeyPartitionInfo {
    pub version: i32,
    pub partition_definitions: Vec<PartitionDefinition>,
    pub partition_key: Vec<String>,
    pub linear: bool,
}

/// Info for how to partition a table.
#[derive(Debug)]
pub enum PartitionInfo {
    Hash(HashPartitionInfo),
    Key(KeyPartitionInfo),
}

/// The name of a partition definition.
pub open spec fn spec_definition_name(d: &PartitionDefinition) -> Seq<char> {
    d.name@
}

impl PartitionInfo {
    /// The partition definitions, whichever way the table is split.
    pub open spec fn spec_definitions(&self) -> Seq<PartitionDefinition> {
        match self {
            PartitionInfo::Hash(v) => v.partition_definitions@,
            PartitionInfo::Key(v) => v.partition_definitions@,
        }
    }

    /// Copy out the partition definitions.
    pub fn get_definitions(&self) -> (r: Vec<PartitionDefinition>)
        ensures
            r@.len() == self.spec_definitions().len(),
            forall|i: int|
                0 <= i < r@.len() ==> spec_definition_name(&r@[i]) == spec_definition_name(
                    &self.spec_definitions()[i],
                ),
    {
        match self {
            PartitionInfo::Hash(v) => clone_definitions(&v.partition_definitions),
            PartitionInfo::Key(v) => clone_definitions(&v.partition_definitions),
        }
    }
}

/// Copy a run of partition definitions.
#[verifier::loop_isolation(false)]
fn clone_definitions(v: &Vec<PartitionDefinition>) -> (r: Vec<PartitionDefinition>)
    ensures
        r@.len() == v@.len(),
        forall|i: int|
            0 <= i < r@.len() ==> spec_definition_name(&r@[i]) == spec_definition_name(&v@[i]),
{
    let n = v.len();
    let mut r: Vec<PartitionDefinition> = Vec::with_capacity(n);
    let mut i: usize = 0;
    while i < n
        invariant
            i <= n,
            r@.len() == i,
            forall|j: int|
                0 <= j < i ==> spec_definition_name(&r@[j]) == spec_definition_name(&v@[j]),
        decreases n - i,
    {
        let d = &v[i];
        let origin_name = match &d.origin_name {
            Some(o) => Some(o.as_str().to_owned()),
            None => None,
        };
        r.push(PartitionDefinition { name: d.name.as_str().to_owned(), origin_name });
        i += 1;
    }
    r
}

/// The name of one partition's own table, under the parent table's name.
pub open spec fn spec_sub_partition_table_name(
    table_name: Seq<char>,
    partition_name: Seq<char>,
) -> Seq<char> {
    "__"@ + table_name + "_"@ + partition_name
}

/// Build the name of one partition's own table.
pub fn format_sub_partition_table_name(table_name: &str, partition_name: &str) -> (r: String)
    ensures
        r@ == spec_sub_partition_table_name(table_name@, partition_name@),
{
    proof {
        reveal_strlit("__");
        reveal_strlit("_");
    }
    let mut r = String::new();
    r.append("__");
    r.append(table_name);
    r.append("_");
    r.append(partition_name);
    proof {
        assert(r@ =~= spec_sub_partition_table_name(table_name@, partition_name@));
    }
    r
}

} // verus!
