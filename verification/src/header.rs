//! The header of runtime data: what a runtime is called, installs and runs.

use vstd::prelude::*;
use vstd::string::*;

use crate::footer::FORMAT_VERSION;

verus! {

/// The version of this library.
pub const RUNTIME_VERSION: &'static str = "0.9.0";

/// What a runtime installs by default.
#[derive(Clone, Debug, PartialEq, Eq)]
pub struct RuntimeConfig {
    pub channels: Vec<String>,
    pub packages: Vec<String>,
    pub condarc: Option<String>,
    pub freeze_base: bool,
}

/// Who updates an installed runtime.
#[derive(Clone, Copy, Debug, PartialEq, Eq, Structural)]
pub enum UpdateOwnership {
    /// The runtime itself.
    Direct,
    /// Some other program.
    External,
}

/// Where a runtime finds its updates.
#[derive(Clone, Debug, PartialEq, Eq)]
pub struct RuntimeUpdateConfig {
    pub channel: String,
    pub package: String,
    pub build_number: u64,
    /// The owner that headers of older builders name.
    pub compatibility_ownership: Option<UpdateOwnership>,
    /// The instruction that headers of older builders give.
    pub compatibility_instruction: Option<String>,
}

/// Where a runtime is installed.
#[derive(Clone, Copy, Debug, PartialEq, Eq, Structural)]
pub enum InstallScheme {
    /// Below the home directory, as conda is.
    CondaHome,
    /// In the directory for the user's data.
    UserData,
}

/// The header of runtime data.
#[derive(Clone, Debug, PartialEq, Eq)]
pub struct RuntimeDataHeader {
    pub schema_version: u32,
    pub artifact_name: String,
    pub runtime_name: String,
    pub runtime_version: String,
    pub artifact_layout: String,
    pub platform: String,
    pub embedded_artifact_name: String,
    pub delegate_executable: String,
    pub install_scheme: InstallScheme,
    pub install_name: String,
    pub metadata_file: String,
    pub bundle_env_var: String,
    pub offline_env_var: String,
    pub docs_url: String,
    pub installer: Option<String>,
    pub update: Option<RuntimeUpdateConfig>,
    pub runtime_config: RuntimeConfig,
    pub runtime_lock: String,
}

/// The text of an optional string.
pub open spec fn optional_text(text: Option<String>) -> Option<Seq<char>> {
    match text {
        Some(text) => Some(text@),
        None => None,
    }
}

/// The texts of a list of strings.
pub open spec fn texts(list: Seq<String>) -> Seq<Seq<char>> {
    list.map_values(|text: String| text@)
}

/// The model of a [`RuntimeConfig`].
#[verifier::ext_equal]
pub struct ConfigView {
    pub channels: Seq<Seq<char>>,
    pub packages: Seq<Seq<char>>,
    pub condarc: Option<Seq<char>>,
    pub freeze_base: bool,
}

impl View for RuntimeConfig {
    type V = ConfigView;

    open spec fn view(&self) -> ConfigView {
        ConfigView {
            channels: texts(self.channels@),
            packages: texts(self.packages@),
            condarc: optional_text(self.condarc),
            freeze_base: self.freeze_base,
        }
    }
}

/// The model of a [`RuntimeUpdateConfig`].
#[verifier::ext_equal]
pub struct UpdateView {
    pub channel: Seq<char>,
    pub package: Seq<char>,
    pub build_number: u64,
    pub compatibility_ownership: Option<UpdateOwnership>,
    pub compatibility_instruction: Option<Seq<char>>,
}

impl View for RuntimeUpdateConfig {
    type V = UpdateView;

    open spec fn view(&self) -> UpdateView {
        UpdateView {
            channel: self.channel@,
            package: self.package@,
            build_number: self.build_number,
            compatibility_ownership: self.compatibility_ownership,
            compatibility_instruction: optional_text(self.compatibility_instruction),
        }
    }
}

/// The model of a [`RuntimeDataHeader`].
#[verifier::ext_equal]
pub struct HeaderView {
    pub schema_version: u32,
    pub artifact_name: Seq<char>,
    pub runtime_name: Seq<char>,
    pub runtime_version: Seq<char>,
    pub artifact_layout: Seq<char>,
    pub platform: Seq<char>,
    pub embedded_artifact_name: Seq<char>,
    pub delegate_executable: Seq<char>,
    pub install_scheme: InstallScheme,
    pub install_name: Seq<char>,
    pub metadata_file: Seq<char>,
    pub bundle_env_var: Seq<char>,
    pub offline_env_var: Seq<char>,
    pub docs_url: Seq<char>,
    pub installer: Option<Seq<char>>,
    pub update: Option<UpdateView>,
    pub runtime_config: ConfigView,
    pub runtime_lock: Seq<char>,
}

impl View for RuntimeDataHeader {
    type V = HeaderView;

    open spec fn view(&self) -> HeaderView {
        HeaderView {
            schema_version: self.schema_version,
            artifact_name: self.artifact_name@,
            runtime_name: self.runtime_name@,
            runtime_version: self.runtime_version@,
            artifact_layout: self.artifact_layout@,
            platform: self.platform@,
            embedded_artifact_name: self.embedded_artifact_name@,
            delegate_executable: self.delegate_executable@,
            install_scheme: self.install_scheme,
            install_name: self.install_name@,
            metadata_file: self.metadata_file@,
            bundle_env_var: self.bundle_env_var@,
            offline_env_var: self.offline_env_var@,
            docs_url: self.docs_url@,
            installer: optional_text(self.installer),
            update: match self.update {
                Some(update) => Some(update@),
                None => None,
            },
            runtime_config: self.runtime_config@,
            runtime_lock: self.runtime_lock@,
        }
    }
}

/// A configuration that installs nothing.
pub open spec fn empty_config() -> ConfigView {
    ConfigView {
        channels: Seq::empty(),
        packages: Seq::empty(),
        condarc: None,
        freeze_base: false,
    }
}

impl UpdateView {
    /// Who updates a runtime when it is first installed.
    pub open spec fn ownership(self) -> UpdateOwnership {
        match self.compatibility_ownership {
            Some(ownership) => ownership,
            None => UpdateOwnership::Direct,
        }
    }

    /// Whether the header of an older builder says who updates the runtime, or how.
    pub open spec fn has_policy(self) -> bool {
        self.compatibility_ownership is Some || self.compatibility_instruction is Some
    }

    /// Whether the runtime may update itself.
    pub open spec fn is_direct(self) -> bool {
        self.compatibility_ownership != Some(UpdateOwnership::External)
            && self.compatibility_instruction is None
    }
}

/// The character that stands for `c` in the name of an environment variable.
pub open spec fn env_var_char(c: char) -> char {
    if 'a' <= c <= 'z' {
        (c as int - 'a' as int + 'A' as int) as char
    } else if 'A' <= c <= 'Z' || '0' <= c <= '9' {
        c
    } else {
        '_'
    }
}

/// Whether `c` is an upper-case letter, a digit or an underscore.
pub open spec fn is_env_var_char(c: char) -> bool {
    'A' <= c <= 'Z' || '0' <= c <= '9' || c == '_'
}

/// The environment variable of the runtime `name` with this suffix.
pub open spec fn env_var(name: Seq<char>, suffix: Seq<char>) -> Seq<char> {
    name.map_values(|c: char| env_var_char(c)) + "_"@ + suffix
}

/// The header of the runtime `name` before anything else is said of it.
pub open spec fn header_for_name(name: Seq<char>) -> HeaderView {
    HeaderView {
        schema_version: FORMAT_VERSION,
        artifact_name: name,
        runtime_name: name,
        runtime_version: RUNTIME_VERSION@,
        artifact_layout: Seq::empty(),
        platform: Seq::empty(),
        embedded_artifact_name: name,
        delegate_executable: "conda"@,
        install_scheme: InstallScheme::CondaHome,
        install_name: name,
        metadata_file: "."@ + name + ".json"@,
        bundle_env_var: env_var(name, "BUNDLE"@),
        offline_env_var: env_var(name, "OFFLINE"@),
        docs_url: "https://conda-incubator.github.io/conda-ship/"@,
        installer: None,
        update: None,
        runtime_config: empty_config(),
        runtime_lock: Seq::empty(),
    }
}

impl Default for RuntimeConfig {
    fn default() -> (config: Self)
        ensures
            config@ == empty_config(),
            config.channels@.len() == 0,
            config.packages@.len() == 0,
            config.condarc is None,
            !config.freeze_base,
    {
        let config: RuntimeConfig = RuntimeConfig {
            channels: Vec::new(),
            packages: Vec::new(),
            condarc: None,
            freeze_base: false,
        };
        assert(config@ =~= empty_config());
        config
    }
}

impl Default for UpdateOwnership {
    fn default() -> (ownership: Self)
        ensures
            ownership == UpdateOwnership::Direct,
    {
        UpdateOwnership::Direct
    }
}

impl Default for InstallScheme {
    fn default() -> (scheme: Self)
        ensures
            scheme == InstallScheme::CondaHome,
    {
        InstallScheme::CondaHome
    }
}

impl Default for RuntimeDataHeader {
    fn default() -> (header: Self)
        ensures
            header@ == header_for_name("cs-template"@),
    {
        Self::for_name("cs-template")
    }
}

impl RuntimeConfig {
    /// Whether the runtime installs nothing by default.
    pub fn is_empty(&self) -> (empty: bool)
        ensures
            empty == (self@ == empty_config()),
            empty <==> self.channels@.len() == 0 && self.packages@.len() == 0
                && self.condarc is None && !self.freeze_base,
    {
        let empty: bool = self.channels.is_empty() && self.packages.is_empty()
            && self.condarc.is_none() && !self.freeze_base;
        proof {
            assert(self@.channels.len() == self.channels@.len());
            assert(self@.packages.len() == self.packages@.len());
            if empty {
                assert(self@ =~= empty_config());
            }
        }
        empty
    }

    /// Whether the two configurations are the same.
    pub fn is_same_as(&self, other: &RuntimeConfig) -> (same: bool)
        ensures
            same == (self@ == other@),
            same <==> {
                &&& self.channels@.len() == other.channels@.len()
                &&& (forall|i: int|
                    0 <= i < self.channels@.len() ==> (#[trigger] self.channels@[i])@ == other.channels@[i]@)
                &&& self.packages@.len() == other.packages@.len()
                &&& (forall|i: int|
                    0 <= i < self.packages@.len() ==> (#[trigger] self.packages@[i])@ == other.packages@[i]@)
                &&& (match (self.condarc, other.condarc) {
                    (Some(left), Some(right)) => left@ == right@,
                    (None, None) => true,
                    _ => false,
                })
                &&& self.freeze_base == other.freeze_base
            },
    {
        same_list(&self.channels, &other.channels) && same_list(&self.packages, &other.packages)
            && same_optional(&self.condarc, &other.condarc) && self.freeze_base
            == other.freeze_base
    }
}

impl RuntimeUpdateConfig {
    /// Updates from a package in a channel.
    pub fn new(channel: String, package: String, build_number: u64) -> (update: Self)
        ensures
            update@ == (UpdateView {
                channel: channel@,
                package: package@,
                build_number,
                compatibility_ownership: None,
                compatibility_instruction: None,
            }),
            update.channel@ == channel@,
            update.package@ == package@,
            update.build_number == build_number,
            update.compatibility_ownership is None,
            update.compatibility_instruction is None,
    {
        RuntimeUpdateConfig {
            channel,
            package,
            build_number,
            compatibility_ownership: None,
            compatibility_instruction: None,
        }
    }

    /// Who updates a runtime when it is first installed.
    pub fn initial_ownership(&self) -> (ownership: UpdateOwnership)
        ensures
            ownership == self@.ownership(),
            ownership == UpdateOwnership::External <==> self.compatibility_ownership == Some(
                UpdateOwnership::External,
            ),
    {
        match self.compatibility_ownership {
            Some(ownership) => ownership,
            None => UpdateOwnership::default(),
        }
    }

    /// How the other program updates a runtime when it is first installed.
    pub fn initial_instruction(&self) -> (instruction: Option<&str>)
        ensures
            match self@.compatibility_instruction {
                Some(text) => instruction is Some && instruction->0@ == text,
                None => instruction is None,
            },
            instruction is Some <==> self.compatibility_instruction is Some,
            instruction matches Some(text) ==> text@ == self.compatibility_instruction->0@,
    {
        match &self.compatibility_instruction {
            Some(instruction) => Some(instruction.as_str()),
            None => None,
        }
    }

    /// Whether the header of an older builder says who updates the runtime, or how.
    pub fn has_compatibility_policy(&self) -> (has: bool)
        ensures
            has == self@.has_policy(),
            has <==> self.compatibility_ownership is Some || self.compatibility_instruction is Some,
    {
        self.compatibility_ownership.is_some() || self.compatibility_instruction.is_some()
    }

    /// Whether the runtime may update itself.
    pub fn supports_direct_update(&self) -> (supports: bool)
        ensures
            supports == self@.is_direct(),
            supports <==> self.compatibility_instruction is None && self.compatibility_ownership
                != Some(UpdateOwnership::External),
    {
        let external: bool = match self.compatibility_ownership {
            Some(UpdateOwnership::External) => true,
            _ => false,
        };
        !external && self.compatibility_instruction.is_none()
    }

    /// Whether the two are the same.
    pub fn is_same_as(&self, other: &RuntimeUpdateConfig) -> (same: bool)
        ensures
            same == (self@ == other@),
            same <==> {
                &&& self.channel@ == other.channel@
                &&& self.package@ == other.package@
                &&& self.build_number == other.build_number
                &&& self.compatibility_ownership == other.compatibility_ownership
                &&& (match (self.compatibility_instruction, other.compatibility_instruction) {
                    (Some(left), Some(right)) => left@ == right@,
                    (None, None) => true,
                    _ => false,
                })
            },
    {
        let same_ownership: bool = match (
            self.compatibility_ownership,
            other.compatibility_ownership,
        ) {
            (Some(left), Some(right)) => left == right,
            (None, None) => true,
            _ => false,
        };
        self.channel == other.channel && self.package == other.package && self.build_number
            == other.build_number && same_ownership && same_optional(
            &self.compatibility_instruction,
            &other.compatibility_instruction,
        )
    }
}

impl RuntimeDataHeader {
    /// The header of the runtime `name` before anything else is said of it.
    pub fn for_name(name: &str) -> (header: Self)
        ensures
            header@ == header_for_name(name@),
            header.schema_version == 1,
            header.artifact_name@ == name@,
            header.runtime_name@ == name@,
            header.runtime_version@ == "0.9.0"@,
            header.artifact_layout@.len() == 0,
            header.platform@.len() == 0,
            header.embedded_artifact_name@ == name@,
            header.delegate_executable@ == "conda"@,
            header.install_scheme == InstallScheme::CondaHome,
            header.install_name@ == name@,
            header.metadata_file@ == "."@ + name@ + ".json"@,
            header.bundle_env_var@.len() == name@.len() + 1 + "BUNDLE"@.len(),
            header.bundle_env_var@.skip(name@.len() as int) == "_"@ + "BUNDLE"@,
            header.offline_env_var@.len() == name@.len() + 1 + "OFFLINE"@.len(),
            header.offline_env_var@.skip(name@.len() as int) == "_"@ + "OFFLINE"@,
            header.docs_url@ == "https://conda-incubator.github.io/conda-ship/"@,
            header.installer is None,
            header.update is None,
            header.runtime_config.channels@.len() == 0,
            header.runtime_config.packages@.len() == 0,
            header.runtime_config.condarc is None,
            !header.runtime_config.freeze_base,
            header.runtime_lock@.len() == 0,
    {
        let mut metadata_file: String = ".".to_owned();
        metadata_file.append(name);
        metadata_file.append(".json");
        RuntimeDataHeader {
            schema_version: FORMAT_VERSION,
            artifact_name: name.to_owned(),
            runtime_name: name.to_owned(),
            runtime_version: RUNTIME_VERSION.to_owned(),
            artifact_layout: String::new(),
            platform: String::new(),
            embedded_artifact_name: name.to_owned(),
            delegate_executable: "conda".to_owned(),
            install_scheme: InstallScheme::CondaHome,
            install_name: name.to_owned(),
            metadata_file,
            bundle_env_var: runtime_env_var(name, "BUNDLE"),
            offline_env_var: runtime_env_var(name, "OFFLINE"),
            docs_url: "https://conda-incubator.github.io/conda-ship/".to_owned(),
            installer: None,
            update: None,
            runtime_config: RuntimeConfig::default(),
            runtime_lock: String::new(),
        }
    }

    /// Whether the two headers are the same.
    pub fn is_same_as(&self, other: &RuntimeDataHeader) -> (same: bool)
        ensures
            same == (self@ == other@),
            same <==> {
                &&& self.schema_version == other.schema_version
                &&& self.artifact_name@ == other.artifact_name@
                &&& self.runtime_name@ == other.runtime_name@
                &&& self.runtime_version@ == other.runtime_version@
                &&& self.artifact_layout@ == other.artifact_layout@
                &&& self.platform@ == other.platform@
                &&& self.embedded_artifact_name@ == other.embedded_artifact_name@
                &&& self.delegate_executable@ == other.delegate_executable@
                &&& self.install_name@ == other.install_name@
                &&& self.metadata_file@ == other.metadata_file@
                &&& self.bundle_env_var@ == other.bundle_env_var@
                &&& self.offline_env_var@ == other.offline_env_var@
                &&& self.docs_url@ == other.docs_url@
                &&& self.runtime_lock@ == other.runtime_lock@
                &&& self.install_scheme == other.install_scheme
                &&& (match (self.installer, other.installer) {
                    (Some(left), Some(right)) => left@ == right@,
                    (None, None) => true,
                    _ => false,
                })
                &&& (match (self.update, other.update) {
                    (Some(left), Some(right)) => {
                        &&& left.channel@ == right.channel@
                        &&& left.package@ == right.package@
                        &&& left.build_number == right.build_number
                        &&& left.compatibility_ownership == right.compatibility_ownership
                        &&& (match (
                            left.compatibility_instruction,
                            right.compatibility_instruction,
                        ) {
                            (Some(left), Some(right)) => left@ == right@,
                            (None, None) => true,
                            _ => false,
                        })
                    },
                    (None, None) => true,
                    _ => false,
                })
                &&& self.runtime_config.channels@.len() == other.runtime_config.channels@.len()
                &&& (forall|i: int|
                    0 <= i < self.runtime_config.channels@.len() ==> (#[trigger] self.runtime_config.channels@[i])@ == other.runtime_config.channels@[i]@)
                &&& self.runtime_config.packages@.len() == other.runtime_config.packages@.len()
                &&& (forall|i: int|
                    0 <= i < self.runtime_config.packages@.len() ==> (#[trigger] self.runtime_config.packages@[i])@ == other.runtime_config.packages@[i]@)
                &&& (match (self.runtime_config.condarc, other.runtime_config.condarc) {
                    (Some(left), Some(right)) => left@ == right@,
                    (None, None) => true,
                    _ => false,
                })
                &&& self.runtime_config.freeze_base == other.runtime_config.freeze_base
            },
    {
        let same_update: bool = match (&self.update, &other.update) {
            (Some(left), Some(right)) => left.is_same_as(right),
            (None, None) => true,
            _ => false,
        };
        self.schema_version == other.schema_version && self.artifact_name == other.artifact_name
            && self.runtime_name == other.runtime_name && self.runtime_version
            == other.runtime_version && self.artifact_layout == other.artifact_layout
            && self.platform == other.platform && self.embedded_artifact_name
            == other.embedded_artifact_name && self.delegate_executable
            == other.delegate_executable && self.install_scheme == other.install_scheme
            && self.install_name == other.install_name && self.metadata_file
            == other.metadata_file && self.bundle_env_var == other.bundle_env_var
            && self.offline_env_var == other.offline_env_var && self.docs_url == other.docs_url
            && same_optional(&self.installer, &other.installer) && same_update
            && self.runtime_config.is_same_as(&other.runtime_config) && self.runtime_lock
            == other.runtime_lock
    }
}

/// Whether the two optional strings are the same.
fn same_optional(left: &Option<String>, right: &Option<String>) -> (same: bool)
    ensures
        same == (optional_text(*left) == optional_text(*right)),
        same == (match (*left, *right) {
            (Some(left), Some(right)) => left@ == right@,
            (None, None) => true,
            _ => false,
        }),
{
    match (left, right) {
        (Some(left), Some(right)) => *left == *right,
        (None, None) => true,
        _ => false,
    }
}

/// Whether the two lists hold the same strings in the same order.
fn same_list(left: &Vec<String>, right: &Vec<String>) -> (same: bool)
    ensures
        same == (texts(left@) == texts(right@)),
        same <==> left@.len() == right@.len() && (forall|i: int|
            0 <= i < left@.len() ==> (#[trigger] left@[i])@ == right@[i]@),
{
    proof {
        assert(texts(left@).len() == left@.len());
        assert(texts(right@).len() == right@.len());
    }
    if left.len() != right.len() {
        return false;
    }
    let mut i: usize = 0;
    while i < left.len()
        invariant
            i <= left.len(),
            left.len() == right.len(),
            forall|j: int| 0 <= j < i ==> #[trigger] texts(left@)[j] == texts(right@)[j],
        decreases left.len() - i,
    {
        assert(texts(left@)[i as int] == left@[i as int]@);
        assert(texts(right@)[i as int] == right@[i as int]@);
        if left[i] != right[i] {
            return false;
        }
        i = i + 1;
    }
    assert(texts(left@) =~= texts(right@));
    assert forall|j: int| 0 <= j < left@.len() implies (#[trigger] left@[j])@ == right@[j]@ by {
        assert(texts(left@)[j] == texts(right@)[j]);
    }
    true
}

/// The character that stands for `c` in the name of an environment variable.
fn env_var_text(c: char) -> (text: &'static str)
    ensures
        text@ == seq![env_var_char(c)],
{
    proof {
        reveal_strlit("A");
        reveal_strlit("B");
        reveal_strlit("C");
        reveal_strlit("D");
        reveal_strlit("E");
        reveal_strlit("F");
        reveal_strlit("G");
        reveal_strlit("H");
        reveal_strlit("I");
        reveal_strlit("J");
        reveal_strlit("K");
        reveal_strlit("L");
        reveal_strlit("M");
        reveal_strlit("N");
        reveal_strlit("O");
        reveal_strlit("P");
        reveal_strlit("Q");
        reveal_strlit("R");
        reveal_strlit("S");
        reveal_strlit("T");
        reveal_strlit("U");
        reveal_strlit("V");
        reveal_strlit("W");
        reveal_strlit("X");
        reveal_strlit("Y");
        reveal_strlit("Z");
        reveal_strlit("0");
        reveal_strlit("1");
        reveal_strlit("2");
        reveal_strlit("3");
        reveal_strlit("4");
        reveal_strlit("5");
        reveal_strlit("6");
        reveal_strlit("7");
        reveal_strlit("8");
        reveal_strlit("9");
        reveal_strlit("_");
    }
    match c {
        'a' | 'A' => "A",
        'b' | 'B' => "B",
        'c' | 'C' => "C",
        'd' | 'D' => "D",
        'e' | 'E' => "E",
        'f' | 'F' => "F",
        'g' | 'G' => "G",
        'h' | 'H' => "H",
        'i' | 'I' => "I",
        'j' | 'J' => "J",
        'k' | 'K' => "K",
        'l' | 'L' => "L",
        'm' | 'M' => "M",
        'n' | 'N' => "N",
        'o' | 'O' => "O",
        'p' | 'P' => "P",
        'q' | 'Q' => "Q",
        'r' | 'R' => "R",
        's' | 'S' => "S",
        't' | 'T' => "T",
        'u' | 'U' => "U",
        'v' | 'V' => "V",
        'w' | 'W' => "W",
        'x' | 'X' => "X",
        'y' | 'Y' => "Y",
        'z' | 'Z' => "Z",
        '0' => "0",
        '1' => "1",
        '2' => "2",
        '3' => "3",
        '4' => "4",
        '5' => "5",
        '6' => "6",
        '7' => "7",
        '8' => "8",
        '9' => "9",
        _ => "_",
    }
}

/// The environment variable of the runtime `name` with this suffix: the name in upper case, with
/// an underscore for everything that is no ASCII letter or digit.
pub fn runtime_env_var(name: &str, suffix: &str) -> (variable: String)
    ensures
        variable@ == env_var(name@, suffix@),
        variable@.len() == name@.len() + 1 + suffix@.len(),
        forall|i: int|
            0 <= i < name@.len() ==> {
                let c = name@[i];
                let mapped = #[trigger] variable@[i];
                &&& 'a' <= c <= 'z' ==> mapped as int == c as int - 0x20
                &&& 'A' <= c <= 'Z' || '0' <= c <= '9' ==> mapped == c
                &&& !('a' <= c <= 'z' || 'A' <= c <= 'Z' || '0' <= c <= '9') ==> mapped == '_'
            },
        variable@.skip(name@.len() as int) == "_"@ + suffix@,
{
    let mut variable: String = String::new();
    let len: usize = name.unicode_len();
    let mut i: usize = 0;
    while i < len
        invariant
            i <= len,
            len == name@.len(),
            variable@ == name@.take(i as int).map_values(|c: char| env_var_char(c)),
        decreases len - i,
    {
        let c: char = name.get_char(i);
        variable.append(env_var_text(c));
        assert(variable@ =~= name@.take(i + 1).map_values(|c: char| env_var_char(c)));
        i = i + 1;
    }
    assert(name@.take(i as int) =~= name@);
    let ghost mapped = variable@;
    variable.append("_");
    variable.append(suffix);
    proof {
        reveal_strlit("_");
        assert(mapped.len() == name@.len());
        assert(variable@ =~= mapped + "_"@ + suffix@);
        assert(variable@.skip(name@.len() as int) =~= "_"@ + suffix@);
        assert forall|i: int| 0 <= i < name@.len() implies #[trigger] variable@[i] == env_var_char(
            name@[i],
        ) by {
            assert(variable@[i] == mapped[i]);
        }
    }
    variable
}

/// A runtime may update itself exactly where it owns its updates at first and nobody says how
/// else to update it; so it may where no older builder laid down a policy.
pub proof fn law_direct_updates(update: UpdateView)
    ensures
        update.is_direct() <==> update.ownership() == UpdateOwnership::Direct
            && update.compatibility_instruction is None,
        !update.has_policy() ==> update.is_direct(),
{
}

/// The name of an environment variable that goes with a runtime has one character for each of the
/// runtime's name, an underscore and the suffix, and is made of upper-case letters, digits and
/// underscores where the suffix is.
pub proof fn law_env_var_is_portable(name: Seq<char>, suffix: Seq<char>)
    requires
        forall|i: int| 0 <= i < suffix.len() ==> is_env_var_char(#[trigger] suffix[i]),
    ensures
        env_var(name, suffix).len() == name.len() + 1 + suffix.len(),
        forall|i: int|
            0 <= i < env_var(name, suffix).len() ==> is_env_var_char(
                #[trigger] env_var(name, suffix)[i],
            ),
{
    reveal_strlit("_");
    let mapped = name.map_values(|c: char| env_var_char(c));
    assert forall|i: int| 0 <= i < name.len() implies is_env_var_char(#[trigger] mapped[i]) by {
        assert(mapped[i] == env_var_char(name[i]));
    }
}

} // verus!
