//! What is remembered between two runs, and where.

use vstd::prelude::*;

verus! {

#[derive(Clone, Copy, PartialEq, Eq, Debug, Structural)]
pub struct WindowGeometry {
    pub x: i32,
    pub y: i32,
    pub w: u32,
    pub h: u32,
}

impl Default for WindowGeometry {
    fn default() -> (r: WindowGeometry)
        ensures
            r == (WindowGeometry { x: 0, y: 0, w: 0, h: 0 }),
    {
        WindowGeometry { x: 0, y: 0, w: 0, h: 0 }
    }
}

#[derive(Clone, Copy, PartialEq, Eq, Debug, Structural)]
pub struct Config {
    pub geometry: Option<WindowGeometry>,
    pub fullscreen: bool,
}

impl Config {
    /// No remembered geometry, not fullscreen.
    pub open spec fn initial() -> Config {
        Config { geometry: None, fullscreen: false }
    }
}

impl Default for Config {
    fn default() -> (r: Config)
        ensures
            r == Config::initial(),
    {
        Config { geometry: None, fullscreen: false }
    }
}

/// The directory of the configuration: a base that a variable names, and what is joined to
/// it, if anything.
#[derive(Debug, PartialEq, Eq)]
pub struct ConfigDir {
    pub base: String,
    pub child: Option<String>,
}

/// The variable that names the base where `PVC_HOME` is not set.
pub open spec fn base_variable(windows: bool) -> &'static str {
    if windows {
        "APPDATA"
    } else {
        "HOME"
    }
}

/// What is joined to that base.
pub open spec fn base_child(windows: bool) -> Seq<char> {
    if windows {
        "PhotoViewerClassic"@
    } else {
        ".config/pvc"@
    }
}

/// The directory for given values of `PVC_HOME` and of the base variable.
pub open spec fn resolves_to(
    windows: bool,
    home: Option<String>,
    base: Option<String>,
    dir: Option<ConfigDir>,
) -> bool {
    match home {
        Some(h) => dir matches Some(d) && d.base == h && d.child is None,
        None => match base {
            Some(b) => dir matches Some(d) && d.base == b && (d.child matches Some(c) && c@
                == base_child(windows)),
            None => dir is None,
        },
    }
}

/// Resolves the configuration directory using an injected getter of environment variables:
/// `PVC_HOME` as it is on any platform; else `%APPDATA%` with `PhotoViewerClassic` on
/// Windows, and `$HOME` with `.config/pvc` elsewhere. `None` if the needed variable is not
/// set. The getter is asked for `PVC_HOME`, and for the base only where that is not set.
pub fn config_dir_from(windows: bool, get: impl Fn(&str) -> Option<String>) -> (r: Option<ConfigDir>)
    requires
        call_requires(get, ("PVC_HOME",)),
        call_ensures(get, ("PVC_HOME",), None) ==> call_requires(get, (base_variable(windows),)),
    ensures
        exists|home: Option<String>, base: Option<String>|
            {
                &&& #[trigger] call_ensures(get, ("PVC_HOME",), home)
                &&& home is None ==> call_ensures(get, (base_variable(windows),), base)
                &&& #[trigger] resolves_to(windows, home, base, r)
            },
{
    let home = get("PVC_HOME");
    match home {
        Some(base) => {
            let r = Some(ConfigDir { base, child: None });
            assert(resolves_to(windows, home, None, r));
            r
        },
        None => {
            let (variable, child): (&str, &str) = if windows {
                ("APPDATA", "PhotoViewerClassic")
            } else {
                ("HOME", ".config/pvc")
            };
            let base = get(variable);
            let r = match base {
                Some(b) => Some(ConfigDir { base: b, child: Some(child.to_string()) }),
                None => None,
            };
            assert(resolves_to(windows, home, base, r));
            r
        },
    }
}

/// The configuration that a text stands for: what it parses to, or the initial one.
pub open spec fn parsed_or_initial(parsed: Option<Config>, config: Config) -> bool {
    match parsed {
        Some(c) => config == c,
        None => config == Config::initial(),
    }
}

/// Loading with these functions may give this.
pub open spec fn loads<R: FnOnce() -> Option<String>, P: FnOnce(String) -> Option<Config>>(
    read: R,
    parse: P,
    config: Config,
) -> bool {
    ||| call_ensures(read, (), None) && config == Config::initial()
    ||| exists|text: String, parsed: Option<Config>|
        {
            &&& call_ensures(read, (), Some(text))
            &&& #[trigger] call_ensures(parse, (text,), parsed)
            &&& parsed_or_initial(parsed, config)
        }
}

/// Loads the configuration: `read` gives the text of the file if it can be read, `parse`
/// what it stands for if it is well-formed. A missing file and a parse error both give the
/// initial configuration.
pub fn load_from(
    read: impl FnOnce() -> Option<String>,
    parse: impl FnOnce(String) -> Option<Config>,
) -> (r: Config)
    requires
        call_requires(read, ()),
        forall|text: String| #[trigger] call_requires(parse, (text,)),
    ensures
        loads(read, parse, r),
{
    match read() {
        None => Config::default(),
        Some(text) => match parse(text) {
            Some(config) => config,
            None => Config::default(),
        },
    }
}

/// Loads the configuration from the directory, if there is one; else it is the initial one.
pub fn load<D>(dir: Option<D>, load_from: impl FnOnce(D) -> Config) -> (r: Config)
    requires
        dir matches Some(d) ==> call_requires(load_from, (d,)),
    ensures
        match dir {
            Some(d) => call_ensures(load_from, (d,), r),
            None => r == Config::initial(),
        },
{
    match dir {
        Some(d) => load_from(d),
        None => Config::default(),
    }
}

/// Saving with these functions may end like this: each step is taken only if the one before
/// went well, and the first that fails tells how.
pub open spec fn saves<
    E,
    C: FnOnce() -> Result<(), E>,
    R: FnOnce(&Config) -> Result<String, E>,
    W: FnOnce(String) -> Result<(), E>,
>(create_dir: C, render: R, write: W, config: Config, outcome: Result<(), E>) -> bool {
    ||| outcome is Err && call_ensures(create_dir, (), outcome)
    ||| {
        &&& call_ensures(create_dir, (), Ok(()))
        &&& outcome matches Err(e) && call_ensures(render, (&config,), Err(e))
    }
    ||| {
        &&& call_ensures(create_dir, (), Ok(()))
        &&& exists|text: String|
            {
                &&& call_ensures(render, (&config,), Ok(text))
                &&& #[trigger] call_ensures(write, (text,), outcome)
            }
    }
}

/// Saves the configuration: creates the directory if needed, renders the text, writes it.
pub fn save_to<E>(
    config: &Config,
    create_dir: impl FnOnce() -> Result<(), E>,
    render: impl FnOnce(&Config) -> Result<String, E>,
    write: impl FnOnce(String) -> Result<(), E>,
) -> (r: Result<(), E>)
    requires
        call_requires(create_dir, ()),
        call_requires(render, (config,)),
        forall|text: String| #[trigger] call_requires(write, (text,)),
    ensures
        saves(create_dir, render, write, *config, r),
{
    match create_dir() {
        Err(e) => Err(e),
        Ok(done) => {
            assert(done == ());
            match render(config) {
                Err(e) => Err(e),
                Ok(text) => write(text),
            }
        },
    }
}

/// Why the configuration was not saved.
#[derive(Debug, PartialEq, Eq)]
pub enum SaveError<E> {
    /// No variable names a directory.
    NoConfigDir,
    /// A step of saving failed.
    Failed(E),
}

/// What is said where no variable names a directory.
pub fn no_config_dir_message() -> (r: &'static str)
    ensures
        r@ == "config directory could not be determined (PVC_HOME / HOME / APPDATA not set)"@,
{
    "config directory could not be determined (PVC_HOME / HOME / APPDATA not set)"
}

/// Saves the configuration to the directory; an error if there is none.
pub fn save<D, E>(
    config: &Config,
    dir: Option<D>,
    save_to: impl FnOnce(D, &Config) -> Result<(), E>,
) -> (r: Result<(), SaveError<E>>)
    requires
        dir matches Some(d) ==> call_requires(save_to, (d, config)),
    ensures
        r == Err::<(), SaveError<E>>(SaveError::NoConfigDir) <==> dir is None,
        dir matches Some(d) ==> match r {
            Ok(()) => call_ensures(save_to, (d, config), Ok::<(), E>(())),
            Err(SaveError::Failed(e)) => call_ensures(save_to, (d, config), Err::<(), E>(e)),
            Err(SaveError::NoConfigDir) => false,
        },
{
    match dir {
        None => Err(SaveError::NoConfigDir),
        Some(d) => match save_to(d, config) {
            Ok(done) => {
                assert(done == ());
                Ok(done)
            },
            Err(e) => Err(SaveError::Failed(e)),
        },
    }
}

/// What was saved is loaded again: if the file holds a text that the configuration was
/// rendered to, and such a text parses to what it was rendered from, loading gives that
/// configuration.
pub proof fn law_saved_config_is_loaded<
    E,
    W: FnOnce(&Config) -> Result<String, E>,
    R: FnOnce() -> Option<String>,
    P: FnOnce(String) -> Option<Config>,
>(render: W, read: R, parse: P, config: Config, loaded: Config)
    requires
        forall|text: Option<String>| #[trigger]
            call_ensures(read, (), text) ==> text is Some && call_ensures(
                render,
                (&config,),
                Ok::<String, E>(text->0),
            ),
        forall|text: String, parsed: Option<Config>|
            call_ensures(render, (&config,), Ok::<String, E>(text)) && #[trigger] call_ensures(
                parse,
                (text,),
                parsed,
            ) ==> parsed == Some(config),
        loads(read, parse, loaded),
    ensures
        loaded == config,
{
}

/// A file that cannot be read, and one whose text does not parse, both load as the initial
/// configuration.
pub proof fn law_unusable_config_is_initial<
    R: FnOnce() -> Option<String>,
    P: FnOnce(String) -> Option<Config>,
>(read: R, parse: P, loaded: Config)
    requires
        (forall|text: Option<String>| #[trigger] call_ensures(read, (), text) ==> text is None) || (
        forall|text: String, parsed: Option<Config>| #[trigger]
            call_ensures(parse, (text,), parsed) ==> parsed is None),
        loads(read, parse, loaded),
    ensures
        loaded == Config::initial(),
{
}

/// What the environment says is always this.
pub open spec fn always_gives<G: Fn(&str) -> Option<String>>(
    get: G,
    variable: &str,
    value: Option<String>,
) -> bool {
    forall|v: Option<String>| #[trigger] call_ensures(get, (variable,), v) ==> v == value
}

/// The directory of the configuration: `PVC_HOME` as it is, if that is set. Else `HOME` with
/// `.config/pvc` joined to it, or on Windows `APPDATA` with `PhotoViewerClassic`; and none
/// where that variable is not set.
pub proof fn law_configuration_has_its_place<G: Fn(&str) -> Option<String>>(
    windows: bool,
    get: G,
    r: Option<ConfigDir>,
    home: Option<String>,
    base: Option<String>,
)
    requires
        call_ensures(config_dir_from, (windows, get), r),
        always_gives(get, "PVC_HOME", home),
        windows ==> always_gives(get, "APPDATA", base),
        !windows ==> always_gives(get, "HOME", base),
    ensures
        home matches Some(h) ==> (r matches Some(dir) && dir.base == h && dir.child is None),
        home is None && base is None ==> r is None,
        home is None ==> (base matches Some(b) ==> (r matches Some(dir) && dir.base == b && (
        dir.child matches Some(child) && if windows {
            child@ == seq![
                'P',
                'h',
                'o',
                't',
                'o',
                'V',
                'i',
                'e',
                'w',
                'e',
                'r',
                'C',
                'l',
                'a',
                's',
                's',
                'i',
                'c',
            ]
        } else {
            child@ == seq!['.', 'c', 'o', 'n', 'f', 'i', 'g', '/', 'p', 'v', 'c']
        }))),
{
    reveal_strlit("PhotoViewerClassic");
    reveal_strlit(".config/pvc");
    assert("PhotoViewerClassic"@ =~= seq![
        'P',
        'h',
        'o',
        't',
        'o',
        'V',
        'i',
        'e',
        'w',
        'e',
        'r',
        'C',
        'l',
        'a',
        's',
        's',
        'i',
        'c',
    ]);
    assert(".config/pvc"@ =~= seq!['.', 'c', 'o', 'n', 'f', 'i', 'g', '/', 'p', 'v', 'c']);
}

/// Without a configuration there is no remembered geometry, and the window is not fullscreen.
pub proof fn law_initial_configuration(config: Config, geometry: WindowGeometry)
    requires
        call_ensures(<Config as Default>::default, (), config),
        call_ensures(<WindowGeometry as Default>::default, (), geometry),
    ensures
        config.geometry is None,
        !config.fullscreen,
        geometry.x == 0 && geometry.y == 0 && geometry.w == 0 && geometry.h == 0,
{
}

/// A configuration is loaded from the text that was read, as what that text parses to; where
/// nothing was read or it does not parse, no geometry is remembered and the window is not
/// fullscreen. Without a directory that is so too.
pub proof fn law_configuration_is_what_was_read<
    R: FnOnce() -> Option<String>,
    P: FnOnce(String) -> Option<Config>,
    D,
    L: FnOnce(D) -> Config,
>(read: R, parse: P, r: Config, dir: Option<D>, load_dir: L, loaded: Config)
    requires
        call_ensures(load_from, (read, parse), r),
        call_ensures(load::<D>, (dir, load_dir), loaded),
    ensures
        (r.geometry is None && !r.fullscreen) || exists|text: String|
            call_ensures(read, (), Some(text)) && #[trigger] call_ensures(
                parse,
                (text,),
                Some(r),
            ),
        (forall|t: Option<String>| #[trigger] call_ensures(read, (), t) ==> t is None)
            ==> r.geometry is None && !r.fullscreen,
        (forall|t: String, c: Option<Config>| #[trigger]
            call_ensures(parse, (t,), c) ==> c is None) ==> r.geometry is None && !r.fullscreen,
        (forall|t: Option<String>| #[trigger] call_ensures(read, (), t) ==> t is Some) && (forall|
            t: String,
            c: Option<Config>,
        | #[trigger]
            call_ensures(parse, (t,), c) ==> c is Some) ==> exists|text: String|
            call_ensures(read, (), Some(text)) && #[trigger] call_ensures(parse, (text,), Some(r)),
        dir is None ==> loaded.geometry is None && !loaded.fullscreen,
        dir matches Some(d) ==> call_ensures(load_dir, (d,), loaded),
{
    if exists|text: String, parsed: Option<Config>|
        {
            &&& call_ensures(read, (), Some(text))
            &&& #[trigger] call_ensures(parse, (text,), parsed)
            &&& parsed_or_initial(parsed, r)
        } {
        let (text, parsed) = choose|text: String, parsed: Option<Config>|
            {
                &&& call_ensures(read, (), Some(text))
                &&& #[trigger] call_ensures(parse, (text,), parsed)
                &&& parsed_or_initial(parsed, r)
            };
        if parsed is Some {
            assert(parsed == Some(r));
        }
    }
}

/// Saving succeeds only if the directory was made, this configuration rendered and that very
/// text written; and what goes wrong first is what is told. Without a directory that is said.
pub proof fn law_configuration_is_what_is_written<
    E,
    C: FnOnce() -> Result<(), E>,
    R: FnOnce(&Config) -> Result<String, E>,
    W: FnOnce(String) -> Result<(), E>,
    D,
    S: FnOnce(D, &Config) -> Result<(), E>,
>(
    config: Config,
    create_dir: C,
    render: R,
    write: W,
    r: Result<(), E>,
    dir: Option<D>,
    save_dir: S,
    saved: Result<(), SaveError<E>>,
)
    requires
        call_ensures(save_to::<E>, (&config, create_dir, render, write), r),
        call_ensures(save::<D, E>, (&config, dir, save_dir), saved),
    ensures
        r is Ok ==> call_ensures(create_dir, (), Ok(())) && exists|text: String|
            call_ensures(render, (&config,), Ok::<String, E>(text)) && #[trigger] call_ensures(
                write,
                (text,),
                Ok::<(), E>(()),
            ),
        r matches Err(e) ==> {
            ||| call_ensures(create_dir, (), Err::<(), E>(e))
            ||| call_ensures(create_dir, (), Ok(())) && call_ensures(
                render,
                (&config,),
                Err::<String, E>(e),
            )
            ||| call_ensures(create_dir, (), Ok(())) && exists|text: String|
                call_ensures(render, (&config,), Ok::<String, E>(text)) && #[trigger] call_ensures(
                    write,
                    (text,),
                    Err::<(), E>(e),
                )
        },
        dir is None <==> saved matches Err(SaveError::NoConfigDir),
        dir matches Some(d) ==> match saved {
            Ok(_) => call_ensures(save_dir, (d, &config), Ok::<(), E>(())),
            Err(SaveError::Failed(e)) => call_ensures(save_dir, (d, &config), Err::<(), E>(e)),
            Err(SaveError::NoConfigDir) => false,
        },
{
    if let Ok(done) = r {
        assert(done == ());
    }
    if let Ok(done) = saved {
        assert(done == ());
    }
}

/// What is said where no directory is known names the three variables that could say it.
pub proof fn law_message_names_the_variables(r: &'static str)
    requires
        call_ensures(no_config_dir_message, (), r),
    ensures
        r@ == seq![
            'c',
            'o',
            'n',
            'f',
            'i',
            'g',
            ' ',
            'd',
            'i',
            'r',
            'e',
            'c',
            't',
            'o',
            'r',
            'y',
            ' ',
            'c',
            'o',
            'u',
            'l',
            'd',
            ' ',
            'n',
            'o',
            't',
            ' ',
            'b',
            'e',
            ' ',
            'd',
            'e',
            't',
            'e',
            'r',
            'm',
            'i',
            'n',
            'e',
            'd',
            ' ',
            '(',
            'P',
            'V',
            'C',
            '_',
            'H',
            'O',
            'M',
            'E',
            ' ',
            '/',
            ' ',
            'H',
            'O',
            'M',
            'E',
            ' ',
            '/',
            ' ',
            'A',
            'P',
            'P',
            'D',
            'A',
            'T',
            'A',
            ' ',
            'n',
            'o',
            't',
            ' ',
            's',
            'e',
            't',
            ')',
        ],
{
    reveal_strlit("config directory could not be determined (PVC_HOME / HOME / APPDATA not set)");
    assert("config directory could not be determined (PVC_HOME / HOME / APPDATA not set)"@ =~= seq![
            'c',
            'o',
            'n',
            'f',
            'i',
            'g',
            ' ',
            'd',
            'i',
            'r',
            'e',
            'c',
            't',
            'o',
            'r',
            'y',
            ' ',
            'c',
            'o',
            'u',
            'l',
            'd',
            ' ',
            'n',
            'o',
            't',
            ' ',
            'b',
            'e',
            ' ',
            'd',
            'e',
            't',
            'e',
            'r',
            'm',
            'i',
            'n',
            'e',
            'd',
            ' ',
            '(',
            'P',
            'V',
            'C',
            '_',
            'H',
            'O',
            'M',
            'E',
            ' ',
            '/',
            ' ',
            'H',
            'O',
            'M',
            'E',
            ' ',
            '/',
            ' ',
            'A',
            'P',
            'P',
            'D',
            'A',
            'T',
            'A',
            ' ',
            'n',
            'o',
            't',
            ' ',
            's',
            'e',
            't',
            ')',
        ]);
}

} // verus!
