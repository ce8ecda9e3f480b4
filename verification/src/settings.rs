//! The parameters of the network, read from its `config.ini`.
use vstd::prelude::*;
use vstd::string::*;

use crate::text::{chars_of, number_of, parse_number, text_of};

verus! {

/// A parsed INI file.
#[verifier::external_type_specification]
#[verifier::external_body]
pub struct ExIni(ini::Ini);

/// One section of a parsed INI file.
#[verifier::external_type_specification]
#[verifier::external_body]
pub struct ExProperties(ini::Properties);

/// Why a text is no INI file.
#[verifier::external_type_specification]
#[verifier::external_body]
pub struct ExParseError(ini::ParseError);

/// What a parsed INI file holds: for each section name the first section of that name, and in it for
/// each key its first value.
pub uninterp spec fn settings(config: ini::Ini) -> Map<Seq<char>, Map<Seq<char>, Seq<char>>>;

/// What a section holds: for each key its first value.
pub uninterp spec fn properties(section: ini::Properties) -> Map<Seq<char>, Seq<char>>;

/// What `ini::Ini::load_from_str` makes of a text; nothing where it is no INI file.
pub uninterp spec fn parsed_ini(text: Seq<char>) -> Option<
    Map<Seq<char>, Map<Seq<char>, Seq<char>>>,
>;

/// `ini::Ini::load_from_str`: parses a text, which is all that the result depends on.
#[verifier::external_body]
fn parse_ini(text: &str) -> (config: Result<ini::Ini, ini::ParseError>)
    ensures
        config matches Ok(c) ==> parsed_ini(text@) == Some(settings(c)),
        config is Err ==> parsed_ini(text@) is None,
{
    ini::Ini::load_from_str(text)
}

/// `ini::Ini::section`: the first section of a name.
#[verifier::external_body]
fn section<'a>(config: &'a ini::Ini, name: &str) -> (found: Option<&'a ini::Properties>)
    ensures
        found matches Some(s) ==> settings(*config).contains_key(name@) && properties(*s)
            == settings(*config)[name@],
        found is None ==> !settings(*config).contains_key(name@),
{
    config.section(Some(name))
}

/// `ini::Properties::get`: the first value of a key.
#[verifier::external_body]
fn value(section: &ini::Properties, key: &str) -> (found: Option<String>)
    ensures
        found matches Some(v) ==> properties(*section).contains_key(key@) && v@ == properties(
            *section,
        )[key@],
        found is None ==> !properties(*section).contains_key(key@),
{
    section.get(key).map(String::from)
}

/// What can be wrong with a configuration.
#[derive(Clone, Copy, Debug, PartialEq, Eq, Structural)]
pub enum ConfigError {
    /// The text is no INI file.
    Syntax,
    /// A section or key is missing.
    Missing(Item),
    /// The value of a key is no number.
    NotANumber(Item),
    /// The model is of a type that is not supported.
    UnsupportedModel,
}

/// A part of the configuration.
#[derive(Clone, Copy, Debug, PartialEq, Eq, Structural)]
pub enum Item {
    ModelSection,
    DfSection,
    TrainSection,
    SampleRate,
    HopSize,
    FftSize,
    MinNbErbFreqs,
    NbErb,
    NbDf,
    DfOrder,
    ConvLookahead,
    DfLookahead,
    NormTau,
    ModelType,
}

/// The values of a configuration that the network reads, each as it stands in the file.
pub struct RawConfig {
    /// Sections `deepfilternet`, `df` and `train`.
    pub has_model: bool,
    pub has_df: bool,
    pub has_train: bool,
    /// Keys of section `df`.
    pub sr: Option<String>,
    pub hop_size: Option<String>,
    pub fft_size: Option<String>,
    pub min_nb_erb_freqs: Option<String>,
    pub nb_erb: Option<String>,
    pub nb_df: Option<String>,
    pub norm_alpha: Option<String>,
    pub norm_tau: Option<String>,
    /// Keys of section `df`, or of `deepfilternet` where `df` lacks them.
    pub df_order: Option<String>,
    pub df_lookahead: Option<String>,
    /// Key of section `deepfilternet`.
    pub conv_lookahead: Option<String>,
    /// Key `model` of section `train`.
    pub model: Option<String>,
}

/// The value of a key, where section and key are there.
pub open spec fn lookup(
    config: Map<Seq<char>, Map<Seq<char>, Seq<char>>>,
    name: Seq<char>,
    key: Seq<char>,
) -> Option<Seq<char>> {
    if config.contains_key(name) && config[name].contains_key(key) {
        Some(config[name][key])
    } else {
        None
    }
}

/// The first value that is there.
pub open spec fn or_else(a: Option<Seq<char>>, b: Option<Seq<char>>) -> Option<Seq<char>> {
    if a is Some {
        a
    } else {
        b
    }
}

impl RawConfig {
    /// The values are those of `config`.
    pub open spec fn reads(&self, config: Map<Seq<char>, Map<Seq<char>, Seq<char>>>) -> bool {
        let df = "df"@;
        let dfn = "deepfilternet"@;
        &&& self.has_model == config.contains_key(dfn)
        &&& self.has_df == config.contains_key(df)
        &&& self.has_train == config.contains_key("train"@)
        &&& text_of(self.sr) == lookup(config, df, "sr"@)
        &&& text_of(self.hop_size) == lookup(config, df, "hop_size"@)
        &&& text_of(self.fft_size) == lookup(config, df, "fft_size"@)
        &&& text_of(self.min_nb_erb_freqs) == lookup(config, df, "min_nb_erb_freqs"@)
        &&& text_of(self.nb_erb) == lookup(config, df, "nb_erb"@)
        &&& text_of(self.nb_df) == lookup(config, df, "nb_df"@)
        &&& text_of(self.norm_alpha) == lookup(config, df, "norm_alpha"@)
        &&& text_of(self.norm_tau) == lookup(config, df, "norm_tau"@)
        &&& text_of(self.df_order) == or_else(
            lookup(config, df, "df_order"@),
            lookup(config, dfn, "df_order"@),
        )
        &&& text_of(self.df_lookahead) == or_else(
            lookup(config, df, "df_lookahead"@),
            lookup(config, dfn, "df_lookahead"@),
        )
        &&& text_of(self.conv_lookahead) == lookup(config, dfn, "conv_lookahead"@)
        &&& text_of(self.model) == lookup(config, "train"@, "model"@)
    }

    /// The value of a key in a section that may be missing.
    fn at(section: Option<&ini::Properties>, key: &str) -> (found: Option<String>)
        ensures
            text_of(found) == (match section {
                Some(s) => if properties(*s).contains_key(key@) {
                    Some(properties(*s)[key@])
                } else {
                    None
                },
                None => None,
            }),
    {
        match section {
            Some(s) => value(s, key),
            None => None,
        }
    }

    /// The first value that is there.
    fn first(a: Option<String>, b: Option<String>) -> (found: Option<String>)
        ensures
            text_of(found) == or_else(text_of(a), text_of(b)),
    {
        match a {
            Some(v) => Some(v),
            None => b,
        }
    }

    /// Reads the values of a parsed configuration.
    pub fn read(config: &ini::Ini) -> (raw: Self)
        ensures
            raw.reads(settings(*config)),
    {
        let model = section(config, "deepfilternet");
        let df = section(config, "df");
        let train = section(config, "train");
        RawConfig {
            has_model: model.is_some(),
            has_df: df.is_some(),
            has_train: train.is_some(),
            sr: Self::at(df, "sr"),
            hop_size: Self::at(df, "hop_size"),
            fft_size: Self::at(df, "fft_size"),
            min_nb_erb_freqs: Self::at(df, "min_nb_erb_freqs"),
            nb_erb: Self::at(df, "nb_erb"),
            nb_df: Self::at(df, "nb_df"),
            norm_alpha: Self::at(df, "norm_alpha"),
            norm_tau: Self::at(df, "norm_tau"),
            df_order: Self::first(Self::at(df, "df_order"), Self::at(model, "df_order")),
            df_lookahead: Self::first(Self::at(df, "df_lookahead"), Self::at(model, "df_lookahead")),
            conv_lookahead: Self::at(model, "conv_lookahead"),
            model: Self::at(train, "model"),
        }
    }
}

/// Parses a configuration.
pub fn load_config(text: &str) -> (config: Result<ini::Ini, ConfigError>)
    ensures
        config matches Ok(c) ==> parsed_ini(text@) == Some(settings(c)),
        config matches Err(e) ==> parsed_ini(text@) is None && e == ConfigError::Syntax,
{
    match parse_ini(text) {
        Ok(config) => Ok(config),
        Err(_) => Err(ConfigError::Syntax),
    }
}

/// Reads the values of a configuration text.
pub fn read_config(text: &str) -> (raw: Result<RawConfig, ConfigError>)
    ensures
        match raw {
            Ok(r) => parsed_ini(text@) matches Some(config) && r.reads(config),
            Err(e) => parsed_ini(text@) is None && e == ConfigError::Syntax,
        },
{
    match load_config(text) {
        Ok(config) => Ok(RawConfig::read(&config)),
        Err(e) => Err(e),
    }
}

/// Where the smoothing factor of the features comes from; the text is a number still to be read.
pub enum AlphaSource {
    /// The factor itself.
    Alpha(String),
    /// The time constant that it is computed from.
    Tau(String),
}

/// The sizes that the network works with.
#[derive(Clone, Copy, Debug, PartialEq, Eq, Structural)]
pub struct NetworkSizes {
    pub sr: usize,
    pub hop_size: usize,
    pub fft_size: usize,
    pub min_nb_erb_freqs: usize,
    pub nb_erb: usize,
    pub nb_df: usize,
    pub df_order: usize,
    pub conv_lookahead: usize,
    pub df_lookahead: usize,
    /// Frequency bins of one spectrum.
    pub n_freqs: usize,
}

/// The number that a value spells, or what is wrong with it.
pub open spec fn number_at(text: Option<Seq<char>>, item: Item) -> Result<usize, ConfigError> {
    match text {
        None => Err(ConfigError::Missing(item)),
        Some(t) => match number_of(t, usize::MAX as nat) {
            Some(n) => Ok(n as usize),
            None => Err(ConfigError::NotANumber(item)),
        },
    }
}

/// The number that a value spells, or what is wrong with it.
fn read_number(text: &Option<String>, item: Item) -> (n: Result<usize, ConfigError>)
    ensures
        n == number_at(text_of(*text), item),
{
    match text {
        None => Err(ConfigError::Missing(item)),
        Some(t) => match parse_number(&chars_of(t.as_str()), usize::MAX) {
            Some(n) => Ok(n),
            None => Err(ConfigError::NotANumber(item)),
        },
    }
}

/// The sizes are the numbers that the configuration spells.
pub open spec fn sizes_of(raw: RawConfig, sizes: NetworkSizes) -> bool {
    &&& number_at(text_of(raw.sr), Item::SampleRate) == Ok::<usize, ConfigError>(sizes.sr)
    &&& number_at(text_of(raw.hop_size), Item::HopSize) == Ok::<usize, ConfigError>(sizes.hop_size)
    &&& number_at(text_of(raw.fft_size), Item::FftSize) == Ok::<usize, ConfigError>(sizes.fft_size)
    &&& number_at(text_of(raw.min_nb_erb_freqs), Item::MinNbErbFreqs) == Ok::<usize, ConfigError>(
        sizes.min_nb_erb_freqs,
    )
    &&& number_at(text_of(raw.nb_erb), Item::NbErb) == Ok::<usize, ConfigError>(sizes.nb_erb)
    &&& number_at(text_of(raw.nb_df), Item::NbDf) == Ok::<usize, ConfigError>(sizes.nb_df)
    &&& number_at(text_of(raw.df_order), Item::DfOrder) == Ok::<usize, ConfigError>(sizes.df_order)
    &&& number_at(text_of(raw.conv_lookahead), Item::ConvLookahead) == Ok::<usize, ConfigError>(
        sizes.conv_lookahead,
    )
    &&& number_at(text_of(raw.df_lookahead), Item::DfLookahead) == Ok::<usize, ConfigError>(
        sizes.df_lookahead,
    )
    &&& sizes.n_freqs == sizes.fft_size / 2 + 1
}

/// The values that must be numbers, in the order in which they are read.
pub open spec fn number_items(raw: RawConfig) -> Seq<(Option<Seq<char>>, Item)> {
    seq![
        (text_of(raw.sr), Item::SampleRate),
        (text_of(raw.hop_size), Item::HopSize),
        (text_of(raw.fft_size), Item::FftSize),
        (text_of(raw.min_nb_erb_freqs), Item::MinNbErbFreqs),
        (text_of(raw.nb_erb), Item::NbErb),
        (text_of(raw.nb_df), Item::NbDf),
        (text_of(raw.df_order), Item::DfOrder),
        (text_of(raw.conv_lookahead), Item::ConvLookahead),
        (text_of(raw.df_lookahead), Item::DfLookahead),
    ]
}

/// The first thing that is wrong with the sizes, in the order in which they are read.
pub open spec fn first_fault(raw: RawConfig) -> Option<ConfigError> {
    if !raw.has_model {
        Some(ConfigError::Missing(Item::ModelSection))
    } else if !raw.has_df {
        Some(ConfigError::Missing(Item::DfSection))
    } else {
        first_number_fault(number_items(raw))
    }
}

/// The fault of the first value that is no number.
pub open spec fn first_number_fault(items: Seq<(Option<Seq<char>>, Item)>) -> Option<ConfigError>
    decreases items.len(),
{
    if items.len() == 0 {
        None
    } else {
        match number_at(items[0].0, items[0].1) {
            Err(e) => Some(e),
            Ok(_) => first_number_fault(items.drop_first()),
        }
    }
}

/// Stepping over a value that is a number.
proof fn lemma_fault_step(items: Seq<(Option<Seq<char>>, Item)>, k: int)
    requires
        0 <= k < items.len(),
    ensures
        number_at(items[k].0, items[k].1) is Ok ==> first_number_fault(items.skip(k))
            == first_number_fault(items.skip(k + 1)),
        number_at(items[k].0, items[k].1) matches Err(e) ==> first_number_fault(items.skip(k))
            == Some(e),
{
    assert(items.skip(k).drop_first() =~= items.skip(k + 1));
    assert(items.skip(k)[0] == items[k]);
}

/// Reads the sizes of the network. The first value that is missing or no number is reported.
pub fn read_sizes(raw: &RawConfig) -> (sizes: Result<NetworkSizes, ConfigError>)
    ensures
        match sizes {
            Ok(s) => first_fault(*raw) is None && sizes_of(*raw, s),
            Err(e) => first_fault(*raw) == Some(e),
        },
{
    if !raw.has_model {
        return Err(ConfigError::Missing(Item::ModelSection));
    }
    if !raw.has_df {
        return Err(ConfigError::Missing(Item::DfSection));
    }
    proof {
        let items = number_items(*raw);
        assert(items.skip(0) =~= items);
        lemma_fault_step(items, 0);
        lemma_fault_step(items, 1);
        lemma_fault_step(items, 2);
        lemma_fault_step(items, 3);
        lemma_fault_step(items, 4);
        lemma_fault_step(items, 5);
        lemma_fault_step(items, 6);
        lemma_fault_step(items, 7);
        lemma_fault_step(items, 8);
        assert(items.skip(9).len() == 0);
    }
    let sr: usize = match read_number(&raw.sr, Item::SampleRate) {
        Ok(n) => n,
        Err(e) => return Err(e),
    };
    let hop_size: usize = match read_number(&raw.hop_size, Item::HopSize) {
        Ok(n) => n,
        Err(e) => return Err(e),
    };
    let fft_size: usize = match read_number(&raw.fft_size, Item::FftSize) {
        Ok(n) => n,
        Err(e) => return Err(e),
    };
    let min_nb_erb_freqs: usize = match read_number(&raw.min_nb_erb_freqs, Item::MinNbErbFreqs) {
        Ok(n) => n,
        Err(e) => return Err(e),
    };
    let nb_erb: usize = match read_number(&raw.nb_erb, Item::NbErb) {
        Ok(n) => n,
        Err(e) => return Err(e),
    };
    let nb_df: usize = match read_number(&raw.nb_df, Item::NbDf) {
        Ok(n) => n,
        Err(e) => return Err(e),
    };
    let df_order: usize = match read_number(&raw.df_order, Item::DfOrder) {
        Ok(n) => n,
        Err(e) => return Err(e),
    };
    let conv_lookahead: usize = match read_number(&raw.conv_lookahead, Item::ConvLookahead) {
        Ok(n) => n,
        Err(e) => return Err(e),
    };
    let df_lookahead: usize = match read_number(&raw.df_lookahead, Item::DfLookahead) {
        Ok(n) => n,
        Err(e) => return Err(e),
    };
    Ok(
        NetworkSizes {
            sr,
            hop_size,
            fft_size,
            min_nb_erb_freqs,
            nb_erb,
            nb_df,
            df_order,
            conv_lookahead,
            df_lookahead,
            n_freqs: fft_size / 2 + 1,
        },
    )
}

/// Where the smoothing factor comes from: the factor where it is given, else the time constant.
pub fn read_alpha(raw: &RawConfig) -> (alpha: Result<AlphaSource, ConfigError>)
    ensures
        match alpha {
            Ok(AlphaSource::Alpha(t)) => text_of(raw.norm_alpha) == Some(t@),
            Ok(AlphaSource::Tau(t)) => raw.norm_alpha is None && text_of(raw.norm_tau) == Some(t@),
            Err(e) => raw.norm_alpha is None && raw.norm_tau is None && e == ConfigError::Missing(
                Item::NormTau,
            ),
        },
{
    match &raw.norm_alpha {
        Some(a) => Ok(AlphaSource::Alpha(a.clone())),
        None => match &raw.norm_tau {
            Some(t) => Ok(AlphaSource::Tau(t.clone())),
            None => Err(ConfigError::Missing(Item::NormTau)),
        },
    }
}

/// Frames that the network looks ahead. Only the DeepFilterNet3 model is supported; it looks ahead by
/// the greater of its two lookaheads.
pub fn read_lookahead(raw: &RawConfig, sizes: &NetworkSizes) -> (lookahead: Result<
    usize,
    ConfigError,
>)
    ensures
        lookahead == (if !raw.has_train {
            Err(ConfigError::Missing(Item::TrainSection))
        } else if raw.model is None {
            Err(ConfigError::Missing(Item::ModelType))
        } else if text_of(raw.model) == Some("deepfilternet3"@) {
            Ok(
                if sizes.conv_lookahead >= sizes.df_lookahead {
                    sizes.conv_lookahead
                } else {
                    sizes.df_lookahead
                },
            )
        } else {
            Err(ConfigError::UnsupportedModel)
        }),
{
    if !raw.has_train {
        return Err(ConfigError::Missing(Item::TrainSection));
    }
    match &raw.model {
        None => Err(ConfigError::Missing(Item::ModelType)),
        Some(model) => if *model == "deepfilternet3".to_owned() {
            Ok(
                if sizes.conv_lookahead >= sizes.df_lookahead {
                    sizes.conv_lookahead
                } else {
                    sizes.df_lookahead
                },
            )
        } else {
            Err(ConfigError::UnsupportedModel)
        },
    }
}

/// A value that spells a number is that number; one that does not, or is not there, is an error that names
/// the setting.
pub proof fn lemma_value_or_its_fault(text: Seq<char>, item: Item)
    ensures
        number_at(None, item) == Err::<usize, ConfigError>(ConfigError::Missing(item)),
        number_of(text, usize::MAX as nat) matches Some(n) ==> number_at(Some(text), item) == Ok::<
            usize,
            ConfigError,
        >(n as usize),
        number_of(text, usize::MAX as nat) is None ==> number_at(Some(text), item) == Err::<
            usize,
            ConfigError,
        >(ConfigError::NotANumber(item)),
{
}

/// Each size is what its own setting spells, and a spectrum has one bin more than half the transform.
pub proof fn lemma_sizes_are_spelled(raw: RawConfig, sizes: NetworkSizes)
    requires
        sizes_of(raw, sizes),
    ensures
        raw.sr matches Some(t) && number_of(t@, usize::MAX as nat) == Some(sizes.sr as nat),
        raw.hop_size matches Some(t) && number_of(t@, usize::MAX as nat) == Some(sizes.hop_size as nat),
        raw.fft_size matches Some(t) && number_of(t@, usize::MAX as nat) == Some(sizes.fft_size as nat),
        raw.min_nb_erb_freqs matches Some(t) && number_of(t@, usize::MAX as nat) == Some(
            sizes.min_nb_erb_freqs as nat,
        ),
        raw.nb_erb matches Some(t) && number_of(t@, usize::MAX as nat) == Some(sizes.nb_erb as nat),
        raw.nb_df matches Some(t) && number_of(t@, usize::MAX as nat) == Some(sizes.nb_df as nat),
        raw.df_order matches Some(t) && number_of(t@, usize::MAX as nat) == Some(sizes.df_order as nat),
        raw.conv_lookahead matches Some(t) && number_of(t@, usize::MAX as nat) == Some(
            sizes.conv_lookahead as nat,
        ),
        raw.df_lookahead matches Some(t) && number_of(t@, usize::MAX as nat) == Some(
            sizes.df_lookahead as nat,
        ),
        2 * sizes.n_freqs == sizes.fft_size + 2 || 2 * sizes.n_freqs == sizes.fft_size + 1,
{
}

/// The first faulty setting is the one that is reported: it is faulty itself, and none before it is.
pub proof fn lemma_first_faulty_setting_is_reported(items: Seq<(Option<Seq<char>>, Item)>)
    ensures
        first_number_fault(items) is None <==> forall|i: int|
            0 <= i < items.len() ==> number_at((#[trigger] items[i]).0, items[i].1) is Ok,
        first_number_fault(items) matches Some(e) ==> exists|k: int|
            {
                &&& 0 <= k < items.len()
                &&& number_at((#[trigger] items[k]).0, items[k].1) == Err::<usize, ConfigError>(e)
                &&& forall|i: int| 0 <= i < k ==> number_at((#[trigger] items[i]).0, items[i].1) is Ok
            },
    decreases items.len(),
{
    if items.len() > 0 {
        let rest = items.drop_first();
        lemma_first_faulty_setting_is_reported(rest);
        assert(forall|i: int| 0 <= i < rest.len() ==> #[trigger] rest[i] == items[i + 1]);
        if number_at(items[0].0, items[0].1) is Ok {
            if first_number_fault(items) is None {
                assert forall|i: int| 0 <= i < items.len() implies number_at(
                    (#[trigger] items[i]).0,
                    items[i].1,
                ) is Ok by {
                    if i > 0 {
                        assert(rest[i - 1] == items[i]);
                    }
                }
            } else {
                let e = first_number_fault(items)->Some_0;
                let k = choose|k: int|
                    {
                        &&& 0 <= k < rest.len()
                        &&& number_at((#[trigger] rest[k]).0, rest[k].1) == Err::<usize, ConfigError>(e)
                        &&& forall|i: int|
                            0 <= i < k ==> number_at((#[trigger] rest[i]).0, rest[i].1) is Ok
                    };
                assert(items[k + 1] == rest[k]);
                assert forall|i: int| 0 <= i < k + 1 implies number_at(
                    (#[trigger] items[i]).0,
                    items[i].1,
                ) is Ok by {
                    if i > 0 {
                        assert(rest[i - 1] == items[i]);
                    }
                }
            }
        } else {
            assert(items[0] == items[0]);
        }
    }
}

/// Nothing is wrong with a configuration where both sections are there and each of the nine sizes is spelled;
/// a missing section is reported before any size, and the one of the model first.
pub proof fn lemma_configuration_without_fault(raw: RawConfig)
    ensures
        !raw.has_model ==> first_fault(raw) == Some(ConfigError::Missing(Item::ModelSection)),
        raw.has_model && !raw.has_df ==> first_fault(raw) == Some(ConfigError::Missing(Item::DfSection)),
        first_fault(raw) is None ==> {
            &&& raw.has_model && raw.has_df
            &&& raw.sr matches Some(t) && number_of(t@, usize::MAX as nat) is Some
            &&& raw.hop_size matches Some(t) && number_of(t@, usize::MAX as nat) is Some
            &&& raw.fft_size matches Some(t) && number_of(t@, usize::MAX as nat) is Some
            &&& raw.min_nb_erb_freqs matches Some(t) && number_of(t@, usize::MAX as nat) is Some
            &&& raw.nb_erb matches Some(t) && number_of(t@, usize::MAX as nat) is Some
            &&& raw.nb_df matches Some(t) && number_of(t@, usize::MAX as nat) is Some
            &&& raw.df_order matches Some(t) && number_of(t@, usize::MAX as nat) is Some
            &&& raw.conv_lookahead matches Some(t) && number_of(t@, usize::MAX as nat) is Some
            &&& raw.df_lookahead matches Some(t) && number_of(t@, usize::MAX as nat) is Some
        },
{
    let items = number_items(raw);
    lemma_first_faulty_setting_is_reported(items);
    if first_fault(raw) is None {
        assert(number_at(items[0].0, items[0].1) is Ok);
        assert(number_at(items[1].0, items[1].1) is Ok);
        assert(number_at(items[2].0, items[2].1) is Ok);
        assert(number_at(items[3].0, items[3].1) is Ok);
        assert(number_at(items[4].0, items[4].1) is Ok);
        assert(number_at(items[5].0, items[5].1) is Ok);
        assert(number_at(items[6].0, items[6].1) is Ok);
        assert(number_at(items[7].0, items[7].1) is Ok);
        assert(number_at(items[8].0, items[8].1) is Ok);
    }
}

/// A setting of the filter is read from its own section, and from the section of the model only where its own
/// has none.
pub proof fn lemma_own_section_goes_first(
    raw: RawConfig,
    config: Map<Seq<char>, Map<Seq<char>, Seq<char>>>,
)
    requires
        raw.reads(config),
    ensures
        config.contains_key("df"@) && config["df"@].contains_key("df_order"@) ==> text_of(raw.df_order)
            == Some(config["df"@]["df_order"@]),
        config.contains_key("df"@) && config["df"@].contains_key("df_lookahead"@) ==> text_of(
            raw.df_lookahead,
        ) == Some(config["df"@]["df_lookahead"@]),
        !config.contains_key("df"@) && config.contains_key("deepfilternet"@)
            && config["deepfilternet"@].contains_key("df_order"@) ==> text_of(raw.df_order) == Some(
            config["deepfilternet"@]["df_order"@],
        ),
        !config.contains_key("df"@) && config.contains_key("deepfilternet"@)
            && config["deepfilternet"@].contains_key("df_lookahead"@) ==> text_of(raw.df_lookahead) == Some(
            config["deepfilternet"@]["df_lookahead"@],
        ),
        !config.contains_key("df"@) && !config.contains_key("deepfilternet"@) ==> raw.df_order is None
            && raw.df_lookahead is None,
        !config.contains_key("df"@) ==> raw.sr is None && raw.nb_df is None,
{
}

} // verus!
