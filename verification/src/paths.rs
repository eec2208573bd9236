//! Where files live. Paths are byte strings, as the system keeps them.

use crate::text::decimal;
use crate::text::decimal_text;
use vstd::prelude::*;
use vstd::utf8::encode_utf8;

verus! {

/// The byte that separates the parts of a path.
pub const SLASH: u8 = 0x2f;

/// `leaf` inside the directory `base`: a slash parts them unless `base` is empty or ends in one.
pub open spec fn joined(base: Seq<u8>, leaf: Seq<u8>) -> Seq<u8> {
    if base.len() == 0 || base.last() == SLASH {
        base + leaf
    } else {
        base + seq![SLASH] + leaf
    }
}

/// `leaf` inside the directory `base`.
pub fn join(base: &Vec<u8>, leaf: &str) -> (path: Vec<u8>)
    ensures
        path@ == joined(base@, encode_utf8(leaf@)),
{
    let mut path: Vec<u8> = Vec::new();
    let mut i: usize = 0;
    while i < base.len()
        invariant
            i <= base.len(),
            path@ == base@.take(i as int),
        decreases base.len() - i,
    {
        path.push(base[i]);
        i += 1;
    }
    assert(path@ =~= base@);
    if base.len() > 0 && base[base.len() - 1] != SLASH {
        path.push(SLASH);
    }
    let ghost front = path@;
    let bytes = leaf.as_bytes();
    let mut k: usize = 0;
    while k < bytes.len()
        invariant
            k <= bytes.len(),
            bytes@ == encode_utf8(leaf@),
            path@ == front + bytes@.take(k as int),
        decreases bytes.len() - k,
    {
        path.push(bytes[k]);
        k += 1;
        assert(path@ =~= front + bytes@.take(k as int));
    }
    assert(path@ =~= joined(base@, encode_utf8(leaf@)));
    path
}

/// The directories that the environment names.
pub struct Locations {
    /// The value of `XDG_CONFIG_HOME`, if it is set.
    pub config_home: Option<Vec<u8>>,
    /// The value of `HOME`, if it is set.
    pub home: Option<Vec<u8>>,
}

/// Neither of the two directories that could hold the configuration is known.
#[derive(Clone, Copy, Debug, PartialEq, Eq, Structural)]
pub struct NoConfigDir;

impl Locations {
    /// The directory of the user's configuration: what the environment names for it, or
    /// `.config` in the home directory.
    pub open spec fn config_dir(self) -> Option<Seq<u8>> {
        match (self.config_home, self.home) {
            (Some(dir), _) => Some(dir@),
            (None, Some(home)) => Some(joined(home@, encode_utf8(".config"@))),
            (None, None) => None,
        }
    }

    /// The directory of the profiles that a user saved.
    pub open spec fn profiles(self) -> Option<Seq<u8>> {
        match self.config_dir() {
            Some(base) => Some(joined(base, encode_utf8("sound-blasterx-g6-control"@))),
            None => None,
        }
    }
}

/// The directory of the profiles that a user saved.
pub fn profile_dir(places: &Locations) -> (dir: Result<Vec<u8>, NoConfigDir>)
    ensures
        match dir {
            Ok(path) => places.profiles() == Some(path@),
            Err(_) => places.profiles() is None,
        },
{
    match &places.config_home {
        Some(base) => Ok(join(base, "sound-blasterx-g6-control")),
        None => match &places.home {
            Some(home) => {
                let base = join(home, ".config");
                Ok(join(&base, "sound-blasterx-g6-control"))
            },
            None => Err(NoConfigDir),
        },
    }
}

/// The message for a configuration directory that is unknown.
pub fn no_config_dir_text() -> (text: &'static str)
    ensures
        text@ == "cannot resolve profile dir: neither XDG_CONFIG_HOME nor HOME is set"@,
{
    "cannot resolve profile dir: neither XDG_CONFIG_HOME nor HOME is set"
}

/// The socket through which a second start reaches the running program: in the runtime
/// directory if one is named, else in the temporary directory under the user's number.
pub open spec fn socket_at(runtime_dir: Option<Vec<u8>>, temp_dir: Seq<u8>, uid: u32) -> Seq<u8> {
    match runtime_dir {
        Some(dir) => if dir@.len() > 0 {
            joined(dir@, encode_utf8("g6-gui.sock"@))
        } else {
            joined(temp_dir, encode_utf8("g6-gui-"@ + decimal(uid as nat) + ".sock"@))
        },
        None => joined(temp_dir, encode_utf8("g6-gui-"@ + decimal(uid as nat) + ".sock"@)),
    }
}

/// The socket through which a second start reaches the running program.
pub fn instance_socket_path(runtime_dir: Option<Vec<u8>>, temp_dir: &Vec<u8>, uid: u32) -> (path:
    Vec<u8>)
    ensures
        path@ == socket_at(runtime_dir, temp_dir@, uid),
{
    match &runtime_dir {
        Some(dir) => {
            if dir.len() > 0 {
                return join(dir, "g6-gui.sock");
            }
        },
        None => {},
    }
    let mut leaf = "g6-gui-".to_owned();
    leaf.append(decimal_text(uid as u128).as_str());
    leaf.append(".sock");
    join(temp_dir, leaf.as_str())
}

/// The file of the watch service in the user's configuration.
pub open spec fn service_at(config_home: Option<String>, home: Option<String>) -> Seq<u8> {
    let base = match config_home {
        Some(dir) => dir@,
        None => (match home {
            Some(dir) => dir@,
            None => Seq::empty(),
        }) + "/.config"@,
    };
    joined(joined(encode_utf8(base), encode_utf8("systemd/user"@)), encode_utf8(SERVICE_NAME@))
}

/// The name of the watch service.
pub const SERVICE_NAME: &'static str = "g6-cli-watch.service";

/// The file of the watch service in the user's configuration, given the readable values of
/// `XDG_CONFIG_HOME` and `HOME`.
pub fn service_file_path(config_home: Option<String>, home: Option<String>) -> (path: Vec<u8>)
    ensures
        path@ == service_at(config_home, home),
{
    let base = match &config_home {
        Some(dir) => dir.as_str().to_owned(),
        None => {
            let mut base = match &home {
                Some(dir) => dir.as_str().to_owned(),
                None => String::new(),
            };
            base.append("/.config");
            base
        },
    };
    let mut root: Vec<u8> = Vec::new();
    root = join(&root, base.as_str());
    assert(root@ =~= encode_utf8(base@));
    let dir = join(&root, "systemd/user");
    join(&dir, SERVICE_NAME)
}

/// A file is found in its directory: the path begins with the directory and ends in the name,
/// with one slash between them, whether or not the directory was written with one at its end.
pub proof fn law_one_slash_before_the_name(base: Seq<u8>, leaf: Seq<u8>)
    requires
        base.len() > 0,
    ensures
        joined(base, leaf).take(base.len() as int) == base,
        joined(base, leaf).skip(joined(base, leaf).len() - leaf.len()) == leaf,
        base.last() != 0x2f ==> joined(base, leaf) == base.push(0x2f) + leaf,
        joined(base.push(0x2f), leaf) == base.push(0x2f) + leaf,
        joined(Seq::<u8>::empty(), leaf) == leaf,
{
    let path = joined(base, leaf);
    assert(path.take(base.len() as int) =~= base);
    assert(path.skip(path.len() - leaf.len()) =~= leaf);
    assert(base + seq![0x2fu8] + leaf =~= base.push(0x2f) + leaf);
    assert(Seq::<u8>::empty() + leaf =~= leaf);
}

/// A directory that the environment names for the configuration goes before the home directory,
/// and with neither there is none.
pub proof fn law_named_directory_goes_first(dir: Vec<u8>, home: Vec<u8>, other: Option<Vec<u8>>)
    ensures
        (Locations { config_home: Some(dir), home: other }).profiles() == Some(
            joined(dir@, encode_utf8("sound-blasterx-g6-control"@)),
        ),
        (Locations { config_home: None, home: Some(home) }).profiles() == Some(
            joined(
                joined(home@, encode_utf8(".config"@)),
                encode_utf8("sound-blasterx-g6-control"@),
            ),
        ),
        (Locations { config_home: None, home: None }).profiles() is None,
{
}

/// The socket stands in the runtime directory under a fixed name, and without such a directory
/// in the temporary one under a name with the user's number; an empty name counts as none.
pub proof fn law_socket_stands_in_the_runtime_directory(
    dir: Vec<u8>,
    temp_dir: Seq<u8>,
    uid: u32,
)
    ensures
        dir@.len() > 0 ==> socket_at(Some(dir), temp_dir, uid) == joined(
            dir@,
            encode_utf8("g6-gui.sock"@),
        ),
        dir@.len() == 0 ==> socket_at(Some(dir), temp_dir, uid) == socket_at(None, temp_dir, uid),
        socket_at(None, temp_dir, uid) == joined(
            temp_dir,
            encode_utf8("g6-gui-"@ + decimal(uid as nat) + ".sock"@),
        ),
{
}

} // verus!
