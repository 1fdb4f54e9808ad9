//! Launching a pack: launch options, the preset file handed to the game, the
//! `steam://` URLs and the command line of a direct launch.
use vstd::prelude::*;

use crate::text::push_char;

verus! {

/// How the game is started.
#[derive(Debug, Clone, Copy, PartialEq, Eq)]
pub enum LaunchMode {
    /// Through Steam (a preset file and a `steam://` URL on Linux).
    Steam,
    /// By running the game executable directly (Windows).
    Executable,
}

/// Options of one launch.
#[derive(Debug)]
pub struct LaunchParams {
    mode: LaunchMode,
    disable_optionals: bool,
}

impl LaunchParams {
    /// How the game is started.
    pub closed spec fn launch_mode(&self) -> LaunchMode {
        self.mode
    }

    /// Whether optional addons are left out.
    pub closed spec fn optionals_disabled(&self) -> bool {
        self.disable_optionals
    }

    /// Launch options: how to start the game, and whether every optional
    /// addon is left out.
    pub fn new(mode: LaunchMode, disable_optionals: bool) -> (r: Self)
        ensures
            r.launch_mode() == mode,
            r.optionals_disabled() == disable_optionals,
    {
        Self { mode, disable_optionals }
    }

    /// How the game is started.
    pub fn mode(&self) -> (r: LaunchMode)
        ensures
            r == self.launch_mode(),
    {
        self.mode
    }

    /// Whether optional addons are left out.
    pub fn disable_optionals(&self) -> (r: bool)
        ensures
            r == self.optionals_disabled(),
    {
        self.disable_optionals
    }
}

/// What a launch left behind, for callers that want to tell the user about it.
#[derive(Debug, Default, PartialEq, Eq)]
pub struct LaunchOutcome {
    /// The preset file the launch wrote, where the platform uses one.
    pub preset_path: Option<String>,
}

/// Prefix of generated preset file names: `pamm_`.
pub open spec fn preset_prefix() -> Seq<char> {
    seq!['p', 'a', 'm', 'm', '_']
}

/// Extension of preset files: `.txt`.
pub open spec fn preset_suffix() -> Seq<char> {
    seq!['.', 't', 'x', 't']
}

/// The flag every launch carries: `-noLauncher`.
pub open spec fn no_launcher() -> Seq<char> {
    seq!['-', 'n', 'o', 'L', 'a', 'u', 'n', 'c', 'h', 'e', 'r']
}

/// Characters kept as they are in a preset file name: ASCII letters and
/// digits, `.`, `_` and `-`.
pub open spec fn is_preset_safe(c: char) -> bool {
    ('a' <= c && c <= 'z') || ('A' <= c && c <= 'Z') || ('0' <= c && c <= '9') || c == '.' || c
        == '_' || c == '-'
}

/// A pack name with every unsafe character replaced by `_`.
pub open spec fn sanitise(name: Seq<char>) -> Seq<char> {
    Seq::new(name.len(), |i: int| if is_preset_safe(name[i]) { name[i] } else { '_' })
}

/// The preset file name of a pack: `pamm_<sanitised name>.txt`.
pub open spec fn preset_file_name_spec(pack_name: Seq<char>) -> Seq<char> {
    preset_prefix() + sanitise(pack_name) + preset_suffix()
}

/// Every line followed by a newline.
pub open spec fn lines_text(lines: Seq<Seq<char>>) -> Seq<char>
    decreases lines.len(),
{
    if lines.len() == 0 {
        Seq::empty()
    } else {
        lines_text(lines.drop_last()) + lines.last() + seq!['\n']
    }
}

/// The preset line that loads one mod: `-mod="<path>"`.
pub open spec fn mod_line(path: Seq<char>) -> Seq<char> {
    seq!['-', 'm', 'o', 'd', '=', '"'] + path + seq!['"']
}

/// The lines of a preset: `-noLauncher`, the parameters, one `-mod=` line per
/// mod path.
pub open spec fn preset_lines(params: Seq<Seq<char>>, mods: Seq<Seq<char>>) -> Seq<Seq<char>> {
    seq![no_launcher()] + params + Seq::new(mods.len(), |i: int| mod_line(mods[i]))
}

/// The views of a sequence of strings.
pub open spec fn views(s: Seq<String>) -> Seq<Seq<char>> {
    s.map_values(|x: String| x@)
}

/// `steam://run/107410//-par=<file name>/`.
pub open spec fn preset_launch_url_spec(file_name: Seq<char>) -> Seq<char> {
    seq![
        's',
        't',
        'e',
        'a',
        'm',
        ':',
        '/',
        '/',
        'r',
        'u',
        'n',
        '/',
        '1',
        '0',
        '7',
        '4',
        '1',
        '0',
        '/',
        '/',
        '-',
        'p',
        'a',
        'r',
        '=',
    ] + file_name + seq!['/']
}

/// Whether `c` is kept unchanged in a preset file name.
fn preset_safe(c: char) -> (b: bool)
    ensures
        b == is_preset_safe(c),
{
    ('a' <= c && c <= 'z') || ('A' <= c && c <= 'Z') || ('0' <= c && c <= '9') || c == '.' || c
        == '_' || c == '-'
}

/// Turns a pack name into a preset file name.
///
/// Restricted to `[A-Za-z0-9._-]` so that the `-par=` value stays a bare
/// relative file name needing no percent-encoding in the `steam://` URL; every
/// other character becomes `_`, so the name keeps its length.
pub fn preset_file_name(pack_name: &str) -> (r: String)
    ensures
        r@ == preset_file_name_spec(pack_name@),
{
    let mut r = String::new();
    r.append("pamm_");
    proof {
        reveal_strlit("pamm_");
        assert(r@ =~= preset_prefix());
    }
    let cs = crate::text::chars_of(pack_name);
    let mut i: usize = 0;
    while i < cs.len()
        invariant
            cs@ == pack_name@,
            i <= cs.len(),
            r@ == preset_prefix() + sanitise(pack_name@.take(i as int)),
        decreases cs.len() - i,
    {
        let c = cs[i];
        let ghost before = r@;
        if preset_safe(c) {
            push_char(&mut r, c);
        } else {
            push_char(&mut r, '_');
        }
        proof {
            assert(sanitise(pack_name@.take(i + 1)) =~= sanitise(pack_name@.take(i as int)).push(
                if is_preset_safe(c) { c } else { '_' },
            ));
        }
        i = i + 1;
    }
    r.append(".txt");
    proof {
        reveal_strlit(".txt");
        assert(pack_name@.take(cs.len() as int) =~= pack_name@);
        assert(r@ =~= preset_file_name_spec(pack_name@));
    }
    r
}

/// Renders a preset: one startup parameter per line, each line ended by a
/// newline.
///
/// The first line is always `-noLauncher`; then come `params` in order, then
/// one `-mod="<path>"` line per mod path. A vanilla launch is a preset with no
/// mod lines.
pub fn render_preset(params: &[String], arma_mod_paths: &[String]) -> (r: String)
    ensures
        r@ == lines_text(preset_lines(views(params@), views(arma_mod_paths@))),
{
    let ghost lines = preset_lines(views(params@), views(arma_mod_paths@));
    let mut r = String::new();
    r.append("-noLauncher");
    push_char(&mut r, '\n');
    proof {
        reveal_strlit("-noLauncher");
        assert(lines.take(1).drop_last() =~= Seq::<Seq<char>>::empty());
        assert(lines.take(1).last() == no_launcher());
        assert(lines_text(lines.take(1).drop_last()) =~= Seq::<char>::empty());
        assert(r@ =~= lines_text(lines.take(1)));
    }
    let mut i: usize = 0;
    while i < params.len()
        invariant
            lines == preset_lines(views(params@), views(arma_mod_paths@)),
            i <= params.len(),
            r@ == lines_text(lines.take(i + 1)),
        decreases params.len() - i,
    {
        r.append(params[i].as_str());
        push_char(&mut r, '\n');
        proof {
            assert(lines.take(i + 2).drop_last() =~= lines.take(i + 1));
            assert(lines.take(i + 2).last() == params@[i as int]@);
            assert(r@ =~= lines_text(lines.take(i + 2)));
        }
        i = i + 1;
    }
    let mut j: usize = 0;
    while j < arma_mod_paths.len()
        invariant
            lines == preset_lines(views(params@), views(arma_mod_paths@)),
            j <= arma_mod_paths.len(),
            r@ == lines_text(lines.take(params.len() + j + 1)),
        decreases arma_mod_paths.len() - j,
    {
        let ghost n: int = params.len() + j + 1;
        r.append("-mod=\"");
        r.append(arma_mod_paths[j].as_str());
        push_char(&mut r, '"');
        push_char(&mut r, '\n');
        proof {
            reveal_strlit("-mod=\"");
            assert(lines.take(n + 1).drop_last() =~= lines.take(n));
            assert(lines.take(n + 1).last() == mod_line(arma_mod_paths@[j as int]@));
            assert(r@ =~= lines_text(lines.take(n + 1)));
        }
        j = j + 1;
    }
    proof {
        assert(lines.take(params.len() + arma_mod_paths.len() + 1) =~= lines);
    }
    r
}

/// The URL that launches the game with a preset: `steam://run/107410//-par=<file>/`.
///
/// `run` rather than `rungameid`, which accepts no arguments; `-par` is the only
/// argument, every actual launch flag lives in the preset file it names.
pub fn preset_launch_url(file_name: &str) -> (r: String)
    ensures
        r@ == preset_launch_url_spec(file_name@),
{
    let mut r = String::new();
    r.append("steam://run/107410//-par=");
    r.append(file_name);
    push_char(&mut r, '/');
    proof {
        reveal_strlit("steam://run/107410//-par=");
        assert(r@ =~= preset_launch_url_spec(file_name@));
    }
    r
}

/// How to start the game, as decided for one launch.
#[derive(Debug)]
pub enum LaunchAction {
    /// Write `preset_body` to `preset_file_name` in the game directory, then
    /// open `launch_url`.
    SteamPreset { preset_file_name: String, preset_body: String, launch_url: String },
    /// Run the game executable with `args`.
    Executable { args: Vec<String> },
}

/// `-nolauncher`, the first argument of a direct launch.
pub open spec fn no_launcher_arg() -> Seq<char> {
    seq!['-', 'n', 'o', 'l', 'a', 'u', 'n', 'c', 'h', 'e', 'r']
}

/// The strings of `parts` joined by `sep`.
pub open spec fn join_with(parts: Seq<Seq<char>>, sep: Seq<char>) -> Seq<char>
    decreases parts.len(),
{
    if parts.len() == 0 {
        Seq::empty()
    } else if parts.len() == 1 {
        parts[0]
    } else {
        join_with(parts.drop_last(), sep) + sep + parts.last()
    }
}

/// The strings of `parts` joined by `sep`.
pub fn join_strings(parts: &[String], sep: &str) -> (r: String)
    ensures
        r@ == join_with(views(parts@), sep@),
{
    let mut r = String::new();
    let mut i: usize = 0;
    while i < parts.len()
        invariant
            i <= parts.len(),
            r@ == join_with(views(parts@).take(i as int), sep@),
        decreases parts.len() - i,
    {
        let ghost t = views(parts@).take(i + 1);
        proof {
            assert(t.drop_last() =~= views(parts@).take(i as int));
            assert(t.last() == parts@[i as int]@);
        }
        if i > 0 {
            r.append(sep);
        } else {
            proof {
                assert(views(parts@).take(0) =~= Seq::<Seq<char>>::empty());
                assert(t.len() == 1);
            }
        }
        r.append(parts[i].as_str());
        proof {
            if i == 0 {
                assert(r@ =~= t[0]);
            } else {
                assert(r@ =~= join_with(t.drop_last(), sep@) + sep@ + t.last());
            }
        }
        i = i + 1;
    }
    proof {
        assert(views(parts@).take(parts.len() as int) =~= views(parts@));
    }
    r
}

/// The `-mod=` argument of a direct launch: `-mod=<paths joined by ;>`.
pub open spec fn mod_arg(paths: Seq<Seq<char>>) -> Seq<char> {
    seq!['-', 'm', 'o', 'd', '='] + join_with(paths, seq![';'])
}

/// The arguments of a direct launch: `-nolauncher`, the pack's client
/// parameters, the user's launch parameters, and one `-mod=` argument naming
/// every mod path.
pub open spec fn executable_args(
    client_params: Seq<Seq<char>>,
    launch_params: Seq<Seq<char>>,
    mods: Seq<Seq<char>>,
) -> Seq<Seq<char>> {
    seq![no_launcher_arg()] + client_params + launch_params + seq![mod_arg(mods)]
}

/// The arguments of a direct launch (see [`executable_args`]).
pub fn executable_launch_args(
    client_params: &[String],
    launch_params: &[String],
    mod_paths: &[String],
) -> (r: Vec<String>)
    ensures
        views(r@) == executable_args(views(client_params@), views(launch_params@), views(mod_paths@)),
{
    let mut r: Vec<String> = Vec::new();
    let mut first = String::new();
    first.append("-nolauncher");
    proof {
        reveal_strlit("-nolauncher");
        assert(first@ =~= no_launcher_arg());
    }
    r.push(first);
    let mut i: usize = 0;
    while i < client_params.len()
        invariant
            i <= client_params.len(),
            views(r@) == seq![no_launcher_arg()] + views(client_params@).take(i as int),
        decreases client_params.len() - i,
    {
        let ghost before = views(r@);
        r.push(client_params[i].clone());
        proof {
            assert(views(r@) =~= before.push(client_params@[i as int]@));
            assert(views(client_params@).take(i + 1) =~= views(client_params@).take(i as int).push(
                client_params@[i as int]@,
            ));
        }
        i = i + 1;
    }
    let mut j: usize = 0;
    while j < launch_params.len()
        invariant
            j <= launch_params.len(),
            views(r@) == seq![no_launcher_arg()] + views(client_params@) + views(launch_params@).take(
                j as int,
            ),
        decreases launch_params.len() - j,
    {
        let ghost before = views(r@);
        r.push(launch_params[j].clone());
        proof {
            assert(views(r@) =~= before.push(launch_params@[j as int]@));
            assert(views(launch_params@).take(j + 1) =~= views(launch_params@).take(j as int).push(
                launch_params@[j as int]@,
            ));
        }
        j = j + 1;
    }
    let mut m = String::new();
    m.append("-mod=");
    let joined = join_strings(mod_paths, ";");
    m.append(joined.as_str());
    proof {
        reveal_strlit("-mod=");
        reveal_strlit(";");
        assert(";"@ =~= seq![';']);
        assert(m@ =~= mod_arg(views(mod_paths@)));
        assert(views(client_params@).take(client_params.len() as int) =~= views(client_params@));
        assert(views(launch_params@).take(launch_params.len() as int) =~= views(launch_params@));
    }
    let ghost before = views(r@);
    r.push(m);
    proof {
        assert(views(r@) =~= before.push(mod_arg(views(mod_paths@))));
    }
    r
}

/// Bytes that percent-encoding keeps: ASCII letters and digits, `-`, `.`,
/// `_` and `~`.
pub open spec fn is_unreserved(b: u8) -> bool {
    (48 <= b && b <= 57) || (65 <= b && b <= 90) || (97 <= b && b <= 122) || b == 45 || b == 46
        || b == 95 || b == 126
}

/// The upper-case hexadecimal digit of `d` (below sixteen).
pub open spec fn hex_digit(d: u8) -> char {
    if d < 10 {
        (48 + d) as char
    } else {
        (55 + d) as char
    }
}

/// Percent-encoding of bytes: each byte kept if unreserved, otherwise
/// written `%XX` in upper-case hexadecimal.
pub open spec fn percent_encoded(bytes: Seq<u8>) -> Seq<char>
    decreases bytes.len(),
{
    if bytes.len() == 0 {
        Seq::empty()
    } else {
        let b = bytes.last();
        percent_encoded(bytes.drop_last()) + if is_unreserved(b) {
            seq![b as char]
        } else {
            seq!['%', hex_digit(b / 16), hex_digit(b % 16)]
        }
    }
}

/// The percent-encoding of a string: of its UTF-8 bytes.
pub open spec fn url_encoded(s: Seq<char>) -> Seq<char> {
    percent_encoded(vstd::utf8::encode_utf8(s))
}

/// Percent-encodes a string (`urlencoding::encode`): every UTF-8 byte other
/// than ASCII letters, digits, `-`, `.`, `_` and `~` becomes `%XX` with
/// upper-case hexadecimal digits, the others are kept, in order.
#[verifier::external_body]
fn url_encode(s: &str) -> (r: String)
    ensures
        r@ == url_encoded(s@),
{
    urlencoding::encode(s).into_owned()
}

/// `steam://rungameid/107410// -nolauncher `.
pub open spec fn rungameid_prefix() -> Seq<char> {
    seq![
        's', 't', 'e', 'a', 'm', ':', '/', '/', 'r', 'u', 'n', 'g', 'a', 'm', 'e', 'i', 'd', '/',
        '1', '0', '7', '4', '1', '0', '/', '/', ' ', '-', 'n', 'o', 'l', 'a', 'u', 'n', 'c', 'h',
        'e', 'r', ' ',
    ]
}

/// Every string followed by a space.
pub open spec fn space_terminated(parts: Seq<Seq<char>>) -> Seq<char>
    decreases parts.len(),
{
    if parts.len() == 0 {
        Seq::empty()
    } else {
        space_terminated(parts.drop_last()) + parts.last() + seq![' ']
    }
}

/// The URL of a Steam launch without preset:
/// `steam://rungameid/107410// -nolauncher `, every parameter followed by a
/// space, then the percent-encoded `"-mod=<paths joined by ;>"`.
pub open spec fn rungameid_url_spec(params: Seq<Seq<char>>, mods: Seq<Seq<char>>) -> Seq<char> {
    rungameid_prefix() + space_terminated(params) + url_encoded(
        seq!['"'] + mod_arg(mods) + seq!['"'],
    )
}

/// The URL of a Steam launch that passes every parameter on the command line
/// (platforms without preset files): client parameters, then the user's
/// launch parameters, then the mod list.
pub fn steam_launch_url(params: &[String], mod_paths: &[String]) -> (r: String)
    ensures
        r@ == rungameid_url_spec(views(params@), views(mod_paths@)),
{
    let mut r = String::new();
    r.append("steam://rungameid/107410// -nolauncher ");
    proof {
        reveal_strlit("steam://rungameid/107410// -nolauncher ");
        assert(r@ =~= rungameid_prefix());
        assert(views(params@).take(0) =~= Seq::<Seq<char>>::empty());
        assert(r@ =~= rungameid_prefix() + space_terminated(views(params@).take(0)));
    }
    let mut i: usize = 0;
    while i < params.len()
        invariant
            i <= params.len(),
            r@ == rungameid_prefix() + space_terminated(views(params@).take(i as int)),
        decreases params.len() - i,
    {
        r.append(params[i].as_str());
        push_char(&mut r, ' ');
        proof {
            let t = views(params@).take(i + 1);
            assert(t.drop_last() =~= views(params@).take(i as int));
            assert(t.last() == params@[i as int]@);
            assert(r@ =~= rungameid_prefix() + space_terminated(t));
        }
        i = i + 1;
    }
    let mut combined = String::new();
    push_char(&mut combined, '"');
    combined.append("-mod=");
    let joined = join_strings(mod_paths, ";");
    combined.append(joined.as_str());
    push_char(&mut combined, '"');
    proof {
        reveal_strlit("-mod=");
        reveal_strlit(";");
        assert(";"@ =~= seq![';']);
        assert(combined@ =~= seq!['"'] + mod_arg(views(mod_paths@)) + seq!['"']);
        assert(views(params@).take(params.len() as int) =~= views(params@));
    }
    let encoded = url_encode(combined.as_str());
    r.append(encoded.as_str());
    r
}

/// A pack name made only of safe characters appears unchanged in its preset
/// file name.
pub proof fn lemma_clean_names_pass_through(name: Seq<char>)
    requires
        forall|i: int| 0 <= i < name.len() ==> is_preset_safe(#[trigger] name[i]),
    ensures
        preset_file_name_spec(name) == preset_prefix() + name + preset_suffix(),
{
    assert(sanitise(name) =~= name);
}

/// Sanitising keeps a name's length and leaves only safe characters.
pub proof fn lemma_sanitised_names_are_safe(name: Seq<char>)
    ensures
        sanitise(name).len() == name.len(),
        forall|i: int| 0 <= i < name.len() ==> is_preset_safe(#[trigger] sanitise(name)[i]),
{
}

} // verus!
