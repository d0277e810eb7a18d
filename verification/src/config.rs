//! Connector configuration records and their tabular summaries. The
//! summary is pure data — labelled rows whose cells are text, a list, or
//! a nested section — so what each summary holds (placeholders for unset
//! fields, the masked password) is stated exactly; rendering it is left
//! to unverified display code.

use vstd::prelude::*;

verus! {

/// A leaf value of a summary table.
#[derive(Clone, Debug, PartialEq, Eq)]
pub enum ConfigValue {
    Text(String),
    Items(Vec<String>),
}

/// One labelled entry of a nested section.
#[derive(Clone, Debug, PartialEq, Eq)]
pub struct ConfigEntry {
    pub label: String,
    pub value: ConfigValue,
}

/// A cell: a leaf value or a nested section of labelled entries.
#[derive(Clone, Debug, PartialEq, Eq)]
pub enum ConfigCell {
    Value(ConfigValue),
    Section(Vec<ConfigEntry>),
}

/// One labelled row of a summary table.
#[derive(Clone, Debug, PartialEq, Eq)]
pub struct ConfigRow {
    pub label: String,
    pub cell: ConfigCell,
}

/// A whole summary table.
#[derive(Clone, Debug, PartialEq, Eq)]
pub struct ConfigTable {
    pub rows: Vec<ConfigRow>,
}

/// The decimal digit for one value below ten.
pub open spec fn dec_digit(n: nat) -> char {
    if n == 0 {
        '0'
    } else if n == 1 {
        '1'
    } else if n == 2 {
        '2'
    } else if n == 3 {
        '3'
    } else if n == 4 {
        '4'
    } else if n == 5 {
        '5'
    } else if n == 6 {
        '6'
    } else if n == 7 {
        '7'
    } else if n == 8 {
        '8'
    } else {
        '9'
    }
}

/// The decimal digits of a number, most significant first.
pub open spec fn dec_digits(n: nat) -> Seq<char>
    decreases n,
{
    if n < 10 {
        seq![dec_digit(n)]
    } else {
        dec_digits(n / 10).push(dec_digit(n % 10))
    }
}

/// Relies on `u64`'s standard `ToString`: the decimal digits of the
/// value, most significant first, with no sign and no padding.
#[verifier::external_body]
pub(crate) fn u64_to_string(x: u64) -> (r: String)
    ensures
        r@ == dec_digits(x as nat),
{
    x.to_string()
}

/// Owned copies of a list of strings, value for value.
fn clone_strings(v: &Vec<String>) -> (r: Vec<String>)
    ensures
        r@ == v@,
{
    let mut r: Vec<String> = Vec::new();
    let mut i: usize = 0;
    while i < v.len()
        invariant
            i <= v@.len(),
            r@ == v@.subrange(0, i as int),
        decreases v@.len() - i,
    {
        r.push(v[i].clone());
        i += 1;
    }
    proof {
        assert(r@ =~= v@);
    }
    r
}

/// The block range and address/topic filters of a blockchain source.
#[derive(Clone, Debug, PartialEq, Eq)]
pub struct EthFilter {
    pub from_block: Option<u64>,
    pub to_block: Option<u64>,
    pub addresses: Vec<String>,
    pub topics: Vec<String>,
}

/// One watched contract.
#[derive(Clone, Debug, PartialEq, Eq)]
pub struct EthContract {
    pub name: String,
    pub address: String,
    pub abi: String,
}

/// Configuration of a blockchain source.
#[derive(Clone, Debug, PartialEq, Eq)]
pub struct EthConfig {
    pub filter: Option<EthFilter>,
    pub wss_url: String,
    pub contracts: Vec<EthContract>,
}

impl EthConfig {
    /// The summary: the endpoint, then — when a filter is set — one
    /// nested section with the block bounds (a dash placeholder when a
    /// bound is unset) and the address and topic lists.
    pub fn convert_to_table(&self) -> (t: ConfigTable)
        ensures
            t.rows@.len() == (if self.filter is Some {
                2int
            } else {
                1int
            }),
            t.rows@[0].label@ == "wss_url"@,
            (t.rows@[0].cell matches ConfigCell::Value(ConfigValue::Text(s)) && s@
                == self.wss_url@),
            self.filter matches Some(f) ==> t.rows@[1].label@ == "filter"@ && (
            t.rows@[1].cell matches ConfigCell::Section(entries) && entries@.len() == 4
                && entries@[0].label@ == "from_block"@ && (
            entries@[0].value matches ConfigValue::Text(s) && s@ == (match f.from_block {
                Some(b) => dec_digits(b as nat),
                None => "-------"@,
            })) && entries@[1].label@ == "to_block"@ && (
            entries@[1].value matches ConfigValue::Text(s) && s@ == (match f.to_block {
                Some(b) => dec_digits(b as nat),
                None => "-------"@,
            })) && entries@[2].label@ == "addresses"@ && (
            entries@[2].value matches ConfigValue::Items(a) && a@ == f.addresses@)
                && entries@[3].label@ == "topics"@ && (
            entries@[3].value matches ConfigValue::Items(a) && a@ == f.topics@)),
    {
        let mut rows: Vec<ConfigRow> = Vec::new();
        rows.push(
            ConfigRow {
                label: "wss_url".to_owned(),
                cell: ConfigCell::Value(ConfigValue::Text(self.wss_url.clone())),
            },
        );
        if let Some(f) = &self.filter {
            let from_text = match f.from_block {
                Some(b) => u64_to_string(b),
                None => "-------".to_owned(),
            };
            let to_text = match f.to_block {
                Some(b) => u64_to_string(b),
                None => "-------".to_owned(),
            };
            let mut entries: Vec<ConfigEntry> = Vec::new();
            entries.push(
                ConfigEntry { label: "from_block".to_owned(), value: ConfigValue::Text(from_text) },
            );
            entries.push(
                ConfigEntry { label: "to_block".to_owned(), value: ConfigValue::Text(to_text) },
            );
            entries.push(
                ConfigEntry {
                    label: "addresses".to_owned(),
                    value: ConfigValue::Items(clone_strings(&f.addresses)),
                },
            );
            entries.push(
                ConfigEntry {
                    label: "topics".to_owned(),
                    value: ConfigValue::Items(clone_strings(&f.topics)),
                },
            );
            rows.push(
                ConfigRow { label: "filter".to_owned(), cell: ConfigCell::Section(entries) },
            );
        }
        ConfigTable { rows }
    }
}

/// Configuration of a message-broker source.
#[derive(Clone, Debug, PartialEq, Eq)]
pub struct KafkaConfig {
    pub broker: String,
    pub schema_registry_url: Option<String>,
}

impl KafkaConfig {
    /// The summary: the broker, and the schema registry url or a dash
    /// placeholder when none is configured.
    pub fn convert_to_table(&self) -> (t: ConfigTable)
        ensures
            t.rows@.len() == 2,
            t.rows@[0].label@ == "broker"@,
            (t.rows@[0].cell matches ConfigCell::Value(ConfigValue::Text(s)) && s@
                == self.broker@),
            t.rows@[1].label@ == "schema registry url"@,
            (t.rows@[1].cell matches ConfigCell::Value(ConfigValue::Text(s)) && s@ == (
            match self.schema_registry_url {
                Some(u) => u@,
                None => "--------"@,
            })),
    {
        let mut rows: Vec<ConfigRow> = Vec::new();
        rows.push(
            ConfigRow {
                label: "broker".to_owned(),
                cell: ConfigCell::Value(ConfigValue::Text(self.broker.clone())),
            },
        );
        let url = match &self.schema_registry_url {
            Some(u) => u.clone(),
            None => "--------".to_owned(),
        };
        rows.push(
            ConfigRow {
                label: "schema registry url".to_owned(),
                cell: ConfigCell::Value(ConfigValue::Text(url)),
            },
        );
        ConfigTable { rows }
    }
}

/// Configuration of a warehouse connection.
#[derive(Clone, Debug, PartialEq, Eq)]
pub struct SnowflakeConfig {
    pub server: String,
    pub port: String,
    pub user: String,
    pub password: String,
    pub database: String,
    pub schema: String,
    pub warehouse: String,
    pub driver: Option<String>,
}

impl SnowflakeConfig {
    /// The summary: every connection field, the password masked, and the
    /// driver name or its default.
    pub fn convert_to_table(&self) -> (t: ConfigTable)
        ensures
            t.rows@.len() == 8,
            t.rows@[0].label@ == "server"@ && (t.rows@[0].cell matches ConfigCell::Value(
                ConfigValue::Text(s),
            ) && s@ == self.server@),
            t.rows@[1].label@ == "port"@ && (t.rows@[1].cell matches ConfigCell::Value(
                ConfigValue::Text(s),
            ) && s@ == self.port@),
            t.rows@[2].label@ == "user"@ && (t.rows@[2].cell matches ConfigCell::Value(
                ConfigValue::Text(s),
            ) && s@ == self.user@),
            t.rows@[3].label@ == "password"@ && (t.rows@[3].cell matches ConfigCell::Value(
                ConfigValue::Text(s),
            ) && s@ == "************"@),
            t.rows@[4].label@ == "database"@ && (t.rows@[4].cell matches ConfigCell::Value(
                ConfigValue::Text(s),
            ) && s@ == self.database@),
            t.rows@[5].label@ == "schema"@ && (t.rows@[5].cell matches ConfigCell::Value(
                ConfigValue::Text(s),
            ) && s@ == self.schema@),
            t.rows@[6].label@ == "warehouse"@ && (t.rows@[6].cell matches ConfigCell::Value(
                ConfigValue::Text(s),
            ) && s@ == self.warehouse@),
            t.rows@[7].label@ == "driver"@ && (t.rows@[7].cell matches ConfigCell::Value(
                ConfigValue::Text(s),
            ) && s@ == (match self.driver {
                Some(d) => d@,
                None => "default"@,
            })),
    {
        let mut rows: Vec<ConfigRow> = Vec::new();
        rows.push(
            ConfigRow {
                label: "server".to_owned(),
                cell: ConfigCell::Value(ConfigValue::Text(self.server.clone())),
            },
        );
        rows.push(
            ConfigRow {
                label: "port".to_owned(),
                cell: ConfigCell::Value(ConfigValue::Text(self.port.clone())),
            },
        );
        rows.push(
            ConfigRow {
                label: "user".to_owned(),
                cell: ConfigCell::Value(ConfigValue::Text(self.user.clone())),
            },
        );
        rows.push(
            ConfigRow {
                label: "password".to_owned(),
                cell: ConfigCell::Value(ConfigValue::Text("************".to_owned())),
            },
        );
        rows.push(
            ConfigRow {
                label: "database".to_owned(),
                cell: ConfigCell::Value(ConfigValue::Text(self.database.clone())),
            },
        );
        rows.push(
            ConfigRow {
                label: "schema".to_owned(),
                cell: ConfigCell::Value(ConfigValue::Text(self.schema.clone())),
            },
        );
        rows.push(
            ConfigRow {
                label: "warehouse".to_owned(),
                cell: ConfigCell::Value(ConfigValue::Text(self.warehouse.clone())),
            },
        );
        let driver = match &self.driver {
            Some(d) => d.clone(),
            None => "default".to_owned(),
        };
        rows.push(
            ConfigRow {
                label: "driver".to_owned(),
                cell: ConfigCell::Value(ConfigValue::Text(driver)),
            },
        );
        ConfigTable { rows }
    }
}

/// Credentials and location of an object-storage query engine.
#[derive(Clone, Debug, PartialEq, Eq)]
pub struct DataFusionConfig {
    pub access_key_id: String,
    pub secret_access_key: String,
    pub region: String,
    pub bucket_name: String,
}

impl DataFusionConfig {
    /// The summary: all four fields, one row each.
    pub fn convert_to_table(&self) -> (t: ConfigTable)
        ensures
            t.rows@.len() == 4,
            t.rows@[0].label@ == "access_key_id"@ && (t.rows@[0].cell matches ConfigCell::Value(
                ConfigValue::Text(s),
            ) && s@ == self.access_key_id@),
            t.rows@[1].label@ == "secret_access_key"@ && (
            t.rows@[1].cell matches ConfigCell::Value(ConfigValue::Text(s)) && s@
                == self.secret_access_key@),
            t.rows@[2].label@ == "region"@ && (t.rows@[2].cell matches ConfigCell::Value(
                ConfigValue::Text(s),
            ) && s@ == self.region@),
            t.rows@[3].label@ == "bucket_name"@ && (t.rows@[3].cell matches ConfigCell::Value(
                ConfigValue::Text(s),
            ) && s@ == self.bucket_name@),
    {
        let mut rows: Vec<ConfigRow> = Vec::new();
        rows.push(
            ConfigRow {
                label: "access_key_id".to_owned(),
                cell: ConfigCell::Value(ConfigValue::Text(self.access_key_id.clone())),
            },
        );
        rows.push(
            ConfigRow {
                label: "secret_access_key".to_owned(),
                cell: ConfigCell::Value(ConfigValue::Text(self.secret_access_key.clone())),
            },
        );
        rows.push(
            ConfigRow {
                label: "region".to_owned(),
                cell: ConfigCell::Value(ConfigValue::Text(self.region.clone())),
            },
        );
        rows.push(
            ConfigRow {
                label: "bucket_name".to_owned(),
                cell: ConfigCell::Value(ConfigValue::Text(self.bucket_name.clone())),
            },
        );
        ConfigTable { rows }
    }
}

/// One table read from object storage.
#[derive(Clone, Debug, PartialEq, Eq)]
pub struct DataFusionTable {
    pub name: String,
    pub folder_name: String,
    pub file_type: String,
    pub extension: String,
}

/// Credentials and location of a bucket.
#[derive(Clone, Debug, PartialEq, Eq)]
pub struct S3Details {
    pub access_key_id: String,
    pub secret_access_key: String,
    pub region: String,
    pub bucket_name: String,
}

/// Configuration of an object-storage source.
#[derive(Clone, Debug, PartialEq, Eq)]
pub struct S3Storage {
    pub details: Option<S3Details>,
    pub tables: Vec<DataFusionTable>,
}

impl S3Storage {
    /// The summary: the four detail fields when details are set, an
    /// empty table otherwise.
    pub fn convert_to_table(&self) -> (t: ConfigTable)
        ensures
            self.details is None ==> t.rows@.len() == 0,
            self.details matches Some(d) ==> t.rows@.len() == 4 && t.rows@[0].label@
                == "access_key_id"@ && (t.rows@[0].cell matches ConfigCell::Value(
                ConfigValue::Text(s),
            ) && s@ == d.access_key_id@) && t.rows@[1].label@ == "secret_access_key"@ && (
            t.rows@[1].cell matches ConfigCell::Value(ConfigValue::Text(s)) && s@
                == d.secret_access_key@) && t.rows@[2].label@ == "region"@ && (
            t.rows@[2].cell matches ConfigCell::Value(ConfigValue::Text(s)) && s@ == d.region@)
                && t.rows@[3].label@ == "bucket_name"@ && (
            t.rows@[3].cell matches ConfigCell::Value(ConfigValue::Text(s)) && s@
                == d.bucket_name@),
    {
        let mut rows: Vec<ConfigRow> = Vec::new();
        if let Some(d) = &self.details {
            rows.push(
                ConfigRow {
                    label: "access_key_id".to_owned(),
                    cell: ConfigCell::Value(ConfigValue::Text(d.access_key_id.clone())),
                },
            );
            rows.push(
                ConfigRow {
                    label: "secret_access_key".to_owned(),
                    cell: ConfigCell::Value(ConfigValue::Text(d.secret_access_key.clone())),
                },
            );
            rows.push(
                ConfigRow {
                    label: "region".to_owned(),
                    cell: ConfigCell::Value(ConfigValue::Text(d.region.clone())),
                },
            );
            rows.push(
                ConfigRow {
                    label: "bucket_name".to_owned(),
                    cell: ConfigCell::Value(ConfigValue::Text(d.bucket_name.clone())),
                },
            );
        }
        ConfigTable { rows }
    }
}

/// Location of files on the local machine.
#[derive(Clone, Debug, PartialEq, Eq)]
pub struct LocalDetails {
    pub path: String,
}

/// Configuration of a local-file source.
#[derive(Clone, Debug, PartialEq, Eq)]
pub struct LocalStorage {
    pub details: Option<LocalDetails>,
    pub tables: Vec<DataFusionTable>,
}

impl LocalStorage {
    /// The summary: the path when details are set, an empty table
    /// otherwise.
    pub fn convert_to_table(&self) -> (t: ConfigTable)
        ensures
            self.details is None ==> t.rows@.len() == 0,
            self.details matches Some(d) ==> t.rows@.len() == 1 && t.rows@[0].label@ == "path"@
                && (t.rows@[0].cell matches ConfigCell::Value(ConfigValue::Text(s)) && s@
                == d.path@),
    {
        let mut rows: Vec<ConfigRow> = Vec::new();
        if let Some(d) = &self.details {
            rows.push(
                ConfigRow {
                    label: "path".to_owned(),
                    cell: ConfigCell::Value(ConfigValue::Text(d.path.clone())),
                },
            );
        }
        ConfigTable { rows }
    }
}

} // verus!
