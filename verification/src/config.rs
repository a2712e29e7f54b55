use vstd::prelude::*;
use vstd::string::*;

use crate::toml_model::{
    entries_view, keys_ascending, lemma_array_view, lemma_table_view, parse_toml, text_lt, toml_document,
    ConfigError, TomlValue, TomlValueView,
};

verus! {

/// A named set of fixtures: the files to post, and the directories whose files
/// are posted too.
#[derive(Debug)]
pub struct Scenario {
    pub label: String,
    pub files: Vec<String>,
    pub directories: Vec<String>,
}

/// The mathematical model of a `Scenario`.
pub struct ScenarioView {
    pub label: Seq<char>,
    pub files: Seq<Seq<char>>,
    pub directories: Seq<Seq<char>>,
}

/// The texts of a sequence of strings.
pub open spec fn texts(strings: Seq<String>) -> Seq<Seq<char>> {
    strings.map_values(|s: String| s@)
}

impl View for Scenario {
    type V = ScenarioView;

    open spec fn view(&self) -> ScenarioView {
        ScenarioView {
            label: self.label@,
            files: texts(self.files@),
            directories: texts(self.directories@),
        }
    }
}

/// The models of a sequence of scenarios.
pub open spec fn scenario_views(scenarios: Seq<Scenario>) -> Seq<ScenarioView> {
    scenarios.map_values(|s: Scenario| s@)
}

/// The value under the first entry whose key is `key`, if any.
pub open spec fn entry_value(entries: Seq<(Seq<char>, TomlValueView)>, key: Seq<char>) -> Option<
    TomlValueView,
>
    decreases entries.len(),
{
    if entries.len() == 0 {
        None
    } else if entries[0].0 == key {
        Some(entries[0].1)
    } else {
        entry_value(entries.drop_first(), key)
    }
}

/// The text of an array item: the string itself, or the empty text for any
/// value that is not a string.
pub open spec fn item_text(item: TomlValueView) -> Seq<char> {
    match item {
        TomlValueView::Str(s) => s,
        _ => Seq::empty(),
    }
}

/// The texts of the items of an array value; nothing for any other value.
pub open spec fn array_texts(value: TomlValueView) -> Seq<Seq<char>> {
    match value {
        TomlValueView::Array(items) => items.map_values(|item: TomlValueView| item_text(item)),
        _ => Seq::empty(),
    }
}

/// The texts of the array found under `label` in a table; nothing where the key
/// is missing or its value is not an array.
pub open spec fn array_entries(label: Seq<char>, table: TomlValueView) -> Seq<Seq<char>> {
    match table {
        TomlValueView::Table(entries) => match entry_value(entries, label) {
            Some(value) => array_texts(value),
            None => Seq::empty(),
        },
        _ => Seq::empty(),
    }
}

/// The scenario described by the section `section` under the key `label`.
pub open spec fn scenario_of(label: Seq<char>, section: TomlValueView) -> ScenarioView {
    ScenarioView {
        label,
        files: array_entries("files"@, section),
        directories: array_entries("directories"@, section),
    }
}

/// The scenarios of a configuration table, one per entry, in entry order.
pub open spec fn scenarios_of(entries: Seq<(Seq<char>, TomlValueView)>) -> Seq<ScenarioView> {
    entries.map_values(|e: (Seq<char>, TomlValueView)| scenario_of(e.0, e.1))
}

/// Every top-level value of the configuration is a table.
pub open spec fn sections_are_tables(entries: Seq<(Seq<char>, TomlValueView)>) -> bool {
    forall|i: int| 0 <= i < entries.len() ==> (#[trigger] entries[i]).1 is Table
}

/// `k` is the first entry whose value is not a table.
pub open spec fn first_non_table(entries: Seq<(Seq<char>, TomlValueView)>, k: int) -> bool {
    &&& 0 <= k < entries.len()
    &&& !(entries[k].1 is Table)
    &&& forall|j: int| 0 <= j < k ==> (#[trigger] entries[j]).1 is Table
}

/// A configuration text that the scenario reader accepts: a TOML document whose
/// top-level values are all tables.
pub open spec fn valid_config(text: Seq<char>) -> bool {
    &&& toml_document(text) is Some
    &&& toml_document(text)->0 is Table
    &&& sections_are_tables(toml_document(text)->0->Table_0)
}

/// The labels of the scenarios are strictly ascending, so no label occurs twice.
pub open spec fn labels_ascending(scenarios: Seq<ScenarioView>) -> bool {
    forall|i: int, j: int|
        0 <= i < j < scenarios.len() ==> text_lt(#[trigger] scenarios[i].label, #[trigger] scenarios[j].label)
}

/// `k` is the position of the first entry keyed `key`.
pub open spec fn is_first_key(entries: Seq<(Seq<char>, TomlValueView)>, key: Seq<char>, k: int) -> bool {
    &&& 0 <= k < entries.len()
    &&& entries[k].0 == key
    &&& forall|j: int| 0 <= j < k ==> entries[j].0 != key
}

proof fn lemma_entry_value(entries: Seq<(Seq<char>, TomlValueView)>, key: Seq<char>)
    ensures
        (forall|i: int| 0 <= i < entries.len() ==> entries[i].0 != key) ==> entry_value(entries, key)
            is None,
        forall|k: int| is_first_key(entries, key, k) ==> entry_value(entries, key) == Some(
            entries[k].1,
        ),
    decreases entries.len(),
{
    if entries.len() > 0 {
        let rest = entries.drop_first();
        lemma_entry_value(rest, key);
        assert forall|k: int| is_first_key(entries, key, k) implies entry_value(entries, key) == Some(
            entries[k].1,
        ) by {
            if k > 0 {
                assert(entries[0].0 != key);
                assert(is_first_key(rest, key, k - 1));
            }
        }
        if forall|i: int| 0 <= i < entries.len() ==> entries[i].0 != key {
            assert(entries[0].0 != key);
            assert forall|i: int| 0 <= i < rest.len() implies rest[i].0 != key by {
                assert(rest[i] == entries[i + 1]);
            }
        }
    }
}

/// What the reader takes out of a table for a key: where no entry has the key,
/// nothing; else, for the first entry with the key, each item of its array in
/// order, a string item giving exactly that string and any other item the
/// empty string (nothing where the value is not an array).
pub proof fn lemma_array_entries(label: Seq<char>, entries: Seq<(Seq<char>, TomlValueView)>)
    ensures
        (forall|i: int| 0 <= i < entries.len() ==> entries[i].0 != label) ==> array_entries(
            label,
            TomlValueView::Table(entries),
        ).len() == 0,
        forall|k: int|
            is_first_key(entries, label, k) ==> ({
                let result = array_entries(label, TomlValueView::Table(entries));
                match entries[k].1 {
                    TomlValueView::Array(items) => {
                        &&& result.len() == items.len()
                        &&& forall|m: int|
                            0 <= m < items.len() ==> ((#[trigger] items[m] matches TomlValueView::Str(
                                text,
                            ) ==> result[m] == text) && (!(items[m] is Str) ==> result[m].len()
                                == 0))
                    },
                    _ => result.len() == 0,
                }
            }),
{
    lemma_entry_value(entries, label);
}

/// The scenarios of a configuration table are its entries, one each and in
/// order: the label is the entry's key, the files and the directories are what
/// the reader takes out of the entry's table for the keys "files" and
/// "directories".
pub proof fn lemma_scenarios_of(entries: Seq<(Seq<char>, TomlValueView)>)
    ensures
        scenarios_of(entries).len() == entries.len(),
        forall|i: int|
            0 <= i < entries.len() ==> {
                &&& (#[trigger] scenarios_of(entries)[i]).label == entries[i].0
                &&& scenarios_of(entries)[i].files == array_entries("files"@, entries[i].1)
                &&& scenarios_of(entries)[i].directories == array_entries(
                    "directories"@,
                    entries[i].1,
                )
            },
{
}

/// The texts of the items of an array value, each non-string item as the empty
/// string; nothing for a value that is not an array.
fn texts_of_array(value: &TomlValue) -> (texts_out: Vec<String>)
    ensures
        texts(texts_out@) == array_texts(value@),
{
    match value {
        TomlValue::Array(items) => {
            proof {
                lemma_array_view(*items);
            }
            let ghost item_views = items@.map_values(|v: TomlValue| v@);
            let mut out: Vec<String> = Vec::new();
            for j in 0..items.len()
                invariant
                    item_views == items@.map_values(|v: TomlValue| v@),
                    texts(out@) =~= item_views.take(j as int).map_values(
                        |item: TomlValueView| item_text(item),
                    ),
            {
                let text = match &items[j] {
                    TomlValue::Str(s) => s.clone(),
                    _ => String::new(),
                };
                assert(item_text(item_views[j as int]) == text@);
                let ghost before = out@;
                out.push(text);
                assert(texts(out@) =~= texts(before).push(text@));
                assert(item_views.take(j + 1) =~= item_views.take(j as int).push(item_views[j as int]));
                assert(item_views.take(j + 1).map_values(|item: TomlValueView| item_text(item))
                    =~= item_views.take(j as int).map_values(|item: TomlValueView| item_text(item)).push(
                    item_text(item_views[j as int]),
                ));
            }
            assert(item_views.take(items.len() as int) =~= item_views);
            out
        },
        _ => Vec::new(),
    }
}

/// The strings of the array found under `label` in a table, a non-string item
/// giving the empty string; none where the key is missing or its value is not
/// an array. The value must be a table.
pub fn extract_array(label: &str, config_table: &TomlValue) -> (paths: Vec<String>)
    requires
        config_table@ is Table,
    ensures
        texts(paths@) == array_entries(label@, config_table@),
{
    let key = String::from_str(label);
    match config_table {
        TomlValue::Table(entries) => {
            proof {
                lemma_table_view(*entries);
            }
            let ghost ev = entries_view(entries@);
            let mut i: usize = 0;
            assert(ev.skip(0) =~= ev);
            while i < entries.len()
                invariant
                    i <= entries.len(),
                    ev == entries_view(entries@),
                    key@ == label@,
                    config_table@ == TomlValueView::Table(ev),
                    entry_value(ev, label@) == entry_value(ev.skip(i as int), label@),
                decreases entries.len() - i,
            {
                assert(ev.skip(i as int)[0] == ev[i as int]);
                if entries[i].0 == key {
                    assert(ev[i as int] == (entries@[i as int].0@, entries@[i as int].1@));
                    assert(entry_value(ev.skip(i as int), label@) == Some(entries@[i as int].1@));
                    assert(array_entries(label@, config_table@) == array_texts(entries@[i as int].1@));
                    return texts_of_array(&entries[i].1);
                }
                assert(ev.skip(i as int).drop_first() =~= ev.skip(i + 1));
                i += 1;
            }
            assert(ev.skip(i as int).len() == 0);
            Vec::new()
        },
        _ => Vec::new(),
    }
}

/// The scenarios of a configuration table, one per entry and in entry order,
/// or the label of the first entry whose value is not a table.
pub fn scenarios_from_table(entries: &Vec<(String, TomlValue)>) -> (res: Result<
    Vec<Scenario>,
    ConfigError,
>)
    ensures
        res is Ok <==> sections_are_tables(entries_view(entries@)),
        res matches Ok(scenarios) ==> scenario_views(scenarios@) == scenarios_of(
            entries_view(entries@),
        ),
        res matches Err(e) ==> e matches ConfigError::SectionNotTable(label) && exists|k: int|
            first_non_table(entries_view(entries@), k) && entries_view(entries@)[k].0 == label@,
{
    let ghost ev = entries_view(entries@);
    let mut scenarios: Vec<Scenario> = Vec::new();
    for i in 0..entries.len()
        invariant
            ev == entries_view(entries@),
            forall|j: int| 0 <= j < i ==> (#[trigger] ev[j]).1 is Table,
            scenario_views(scenarios@) =~= scenarios_of(ev.take(i as int)),
    {
        let section = &entries[i].1;
        match section {
            TomlValue::Table(_) => {},
            _ => {
                assert(first_non_table(ev, i as int));
                return Err(ConfigError::SectionNotTable(entries[i].0.clone()));
            },
        }
        let scenario = Scenario {
            label: entries[i].0.clone(),
            files: extract_array("files", section),
            directories: extract_array("directories", section),
        };
        assert(ev[i as int] == (entries@[i as int].0@, entries@[i as int].1@));
        assert(scenario@ == scenario_of(ev[i as int].0, ev[i as int].1));
        let ghost before = scenarios@;
        scenarios.push(scenario);
        assert(scenario_views(scenarios@) =~= scenario_views(before).push(scenario@));
        assert(ev.take(i + 1) =~= ev.take(i as int).push(ev[i as int]));
        assert(scenarios_of(ev.take(i + 1)) =~= scenarios_of(ev.take(i as int)).push(
            scenario_of(ev[i as int].0, ev[i as int].1),
        ));
    }
    assert(ev.take(entries.len() as int) =~= ev);
    Ok(scenarios)
}

proof fn lemma_labels_ascending(entries: Seq<(Seq<char>, TomlValueView)>)
    requires
        keys_ascending(entries),
    ensures
        labels_ascending(scenarios_of(entries)),
{
    assert forall|i: int, j: int| 0 <= i < j < scenarios_of(entries).len() implies text_lt(
        #[trigger] scenarios_of(entries)[i].label,
        #[trigger] scenarios_of(entries)[j].label,
    ) by {
        assert(text_lt(entries[i].0, entries[j].0));
    }
}

/// Reads the scenarios out of a configuration text: one per top-level table, in
/// ascending label order. The text must be a TOML document whose top-level
/// values are all tables (`check_config` tells).
pub fn parse_scenarios(config: String) -> (scenarios: Vec<Scenario>)
    requires
        valid_config(config@),
    ensures
        scenario_views(scenarios@) == scenarios_of(toml_document(config@)->0->Table_0),
        labels_ascending(scenario_views(scenarios@)),
{
    match parse_toml(config.as_str()) {
        Ok(TomlValue::Table(entries)) => {
            proof {
                lemma_table_view(entries);
                lemma_labels_ascending(entries_view(entries@));
            }
            match scenarios_from_table(&entries) {
                Ok(scenarios) => scenarios,
                Err(_) => Vec::new(),
            }
        },
        _ => Vec::new(),
    }
}

/// Whether a configuration text is one `parse_scenarios` reads, and else why
/// not: not a TOML document, or the label of the first top-level value that is
/// not a table.
pub fn check_config(config: &str) -> (res: Result<(), ConfigError>)
    ensures
        res is Ok <==> valid_config(config@),
        res matches Err(e) ==> (e is InvalidToml <==> toml_document(config@) is None),
        res matches Err(e) ==> (e matches ConfigError::SectionNotTable(label) ==> exists|k: int|
            first_non_table(toml_document(config@)->0->Table_0, k)
                && toml_document(config@)->0->Table_0[k].0 == label@),
{
    match parse_toml(config) {
        Ok(TomlValue::Table(entries)) => {
            proof {
                lemma_table_view(entries);
            }
            let ghost ev = entries_view(entries@);
            assert(toml_document(config@) == Some(TomlValueView::Table(ev)));
            for i in 0..entries.len()
                invariant
                    ev == entries_view(entries@),
                    toml_document(config@) == Some(TomlValueView::Table(ev)),
                    forall|j: int| 0 <= j < i ==> (#[trigger] ev[j]).1 is Table,
            {
                match &entries[i].1 {
                    TomlValue::Table(_) => {},
                    _ => {
                        assert(first_non_table(ev, i as int));
                        let label = entries[i].0.clone();
                        assert(toml_document(config@)->0->Table_0[i as int].0 == label@);
                        return Err(ConfigError::SectionNotTable(label));
                    },
                }
            }
            Ok(())
        },
        Ok(_) => Err(ConfigError::SectionNotTable(String::new())),
        Err(e) => Err(e),
    }
}

/// Reads the scenarios out of a configuration text, as `parse_scenarios` does,
/// after `check_config` has found the text valid; else says why it is not.
pub fn try_parse_scenarios(config: String) -> (res: Result<Vec<Scenario>, ConfigError>)
    ensures
        res is Ok <==> valid_config(config@),
        res matches Ok(scenarios) ==> scenario_views(scenarios@) == scenarios_of(
            toml_document(config@)->0->Table_0,
        ) && labels_ascending(scenario_views(scenarios@)),
        res matches Err(e) ==> (e is InvalidToml <==> toml_document(config@) is None),
        res matches Err(e) ==> (e matches ConfigError::SectionNotTable(label) ==> exists|k: int|
            first_non_table(toml_document(config@)->0->Table_0, k)
                && toml_document(config@)->0->Table_0[k].0 == label@),
{
    match check_config(config.as_str()) {
        Ok(()) => Ok(parse_scenarios(config)),
        Err(e) => Err(e),
    }
}

/// Picks the configuration text: the file's content where the file could be
/// read, else the piped input where it is not empty; `None` where neither gives
/// a configuration.
pub fn config_content(file_content: Option<String>, piped_input: String) -> (res: Option<String>)
    ensures
        file_content matches Some(content) ==> res matches Some(c) && c@ == content@,
        file_content is None ==> (res is Some <==> piped_input@.len() > 0),
        file_content is None ==> (res matches Some(c) ==> c@ == piped_input@),
{
    match file_content {
        Some(content) => Some(content),
        None => {
            if piped_input.as_str().is_empty() {
                None
            } else {
                Some(piped_input)
            }
        },
    }
}

} // verus!
