//! The settings that decide which file system a client talks to.
use vstd::prelude::*;

use crate::text::{optional_text, text_eq};

verus! {

/// A configured link of a mount table: what is mounted where. A link without a mount point is
/// the fallback for the paths that no other link serves.
#[derive(Debug)]
pub struct ConfiguredLink {
    pub viewfs_path: Option<String>,
    pub hdfs_url: String,
}

/// What a configured link says.
#[verifier::ext_equal]
pub struct ConfiguredLinkView {
    pub viewfs_path: Option<Seq<char>>,
    pub hdfs_url: Seq<char>,
}

impl View for ConfiguredLink {
    type V = ConfiguredLinkView;

    open spec fn view(&self) -> ConfiguredLinkView {
        ConfiguredLinkView {
            viewfs_path: optional_text(self.viewfs_path),
            hdfs_url: self.hdfs_url@,
        }
    }
}

/// What a list of configured links says.
pub open spec fn configured_views(links: Seq<ConfiguredLink>) -> Seq<ConfiguredLinkView> {
    links.map_values(|l: ConfiguredLink| l@)
}

/// The links that are configured for the mount table of a name.
#[derive(Debug)]
pub struct ConfiguredTable {
    pub name: String,
    pub links: Vec<ConfiguredLink>,
}

/// What a configured mount table says.
#[verifier::ext_equal]
pub struct ConfiguredTableView {
    pub name: Seq<char>,
    pub links: Seq<ConfiguredLinkView>,
}

impl View for ConfiguredTable {
    type V = ConfiguredTableView;

    open spec fn view(&self) -> ConfiguredTableView {
        ConfiguredTableView { name: self.name@, links: configured_views(self.links@) }
    }
}

/// The settings of a client.
#[derive(Debug)]
pub struct Configuration {
    /// The value of `fs.defaultFS`.
    pub default_fs: Option<String>,
    pub mount_tables: Vec<ConfiguredTable>,
}

/// What the settings say.
#[verifier::ext_equal]
pub struct ConfigurationView {
    pub default_fs: Option<Seq<char>>,
    pub mount_tables: Seq<ConfiguredTableView>,
}

impl View for Configuration {
    type V = ConfigurationView;

    open spec fn view(&self) -> ConfigurationView {
        ConfigurationView {
            default_fs: optional_text(self.default_fs),
            mount_tables: self.mount_tables@.map_values(|t: ConfiguredTable| t@),
        }
    }
}

/// The links of the first table with a name; none if there is no such table.
pub open spec fn links_for(tables: Seq<ConfiguredTableView>, name: Seq<char>) -> Seq<
    ConfiguredLinkView,
>
    decreases tables.len(),
{
    if tables.len() == 0 {
        Seq::empty()
    } else if tables[0].name == name {
        tables[0].links
    } else {
        links_for(tables.drop_first(), name)
    }
}

/// The links of a mount table are those of the first table with its name; a name without a table
/// has none.
pub proof fn law_first_table_of_name_counts(
    tables: Seq<ConfiguredTableView>,
    name: Seq<char>,
    i: int,
)
    requires
        0 <= i <= tables.len(),
        forall|j: int| 0 <= j < i ==> (#[trigger] tables[j]).name != name,
        i < tables.len() ==> tables[i].name == name,
    ensures
        i < tables.len() ==> links_for(tables, name) == tables[i].links,
        i == tables.len() ==> links_for(tables, name).len() == 0,
    decreases i,
{
    if i > 0 {
        assert(tables[0].name != name);
        let rest = tables.drop_first();
        assert forall|j: int| 0 <= j < i - 1 implies (#[trigger] rest[j]).name != name by {
            assert(rest[j] == tables[j + 1]);
        }
        law_first_table_of_name_counts(rest, name, i - 1);
    }
}

/// What a configuration says is what it holds, table for table and link for link.
pub proof fn law_configuration_says_what_it_holds(
    config: Configuration,
    table: ConfiguredTable,
    link: ConfiguredLink,
)
    ensures
        config@.default_fs is Some <==> config.default_fs is Some,
        config.default_fs matches Some(url) ==> config@.default_fs == Some(url@),
        config@.mount_tables.len() == config.mount_tables@.len(),
        forall|i: int| 0 <= i < config.mount_tables@.len() ==> config@.mount_tables[i] == (
        #[trigger] config.mount_tables@[i])@,
        table@.name == table.name@,
        table@.links.len() == table.links@.len(),
        forall|i: int| 0 <= i < table.links@.len() ==> table@.links[i] == (
        #[trigger] table.links@[i])@,
        link@.viewfs_path is Some <==> link.viewfs_path is Some,
        link.viewfs_path matches Some(path) ==> link@.viewfs_path == Some(path@),
        link@.hdfs_url == link.hdfs_url@,
{
}

impl Configuration {
    /// The links that are configured for the mount table `name`, if any.
    pub fn get_mount_table(&self, name: &str) -> (res: Option<&Vec<ConfiguredLink>>)
        ensures
            links_for(self@.mount_tables, name@) == match res {
                Some(links) => configured_views(links@),
                None => Seq::<ConfiguredLinkView>::empty(),
            },
    {
        let ghost tables = self@.mount_tables;
        assert(tables.skip(0) =~= tables);
        let mut i: usize = 0;
        while i < self.mount_tables.len()
            invariant
                tables == self@.mount_tables,
                i <= self.mount_tables@.len(),
                links_for(tables, name@) == links_for(tables.skip(i as int), name@),
            decreases self.mount_tables@.len() - i,
        {
            assert(tables.skip(i as int)[0] == self.mount_tables@[i as int]@);
            if text_eq(&self.mount_tables[i].name, name) {
                return Some(&self.mount_tables[i].links);
            }
            assert(tables.skip(i as int).drop_first() =~= tables.skip(i + 1));
            i = i + 1;
        }
        None
    }
}

} // verus!
