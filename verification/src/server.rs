//! The server side of a repository: deploying a pack to a game server.
use vstd::prelude::*;

use crate::handle::{RepoHandle, WalkV, lookup_error_v};
use crate::launch::{join_strings, join_with, views};
use crate::models::{copy_strings, error_view, str_views, ErrorV, PammError};
use crate::paths::{join_path, join_spec};
use crate::templating::{is_datestamp, rendered_template, render_script_template_on, ScriptTemplateContext};
use crate::text::push_char;

verus! {

/// The server's configuration.
#[derive(Debug)]
pub struct ServerConfig {
    /// Where the game server is installed.
    pub server_dir: Option<String>,
    /// Shell commands run after each deployment, in order.
    pub post_deploy_commands: Vec<String>,
    /// Scripts rendered at each deployment: where to write each, and its template.
    pub script_templates: Vec<(String, String)>,
    /// The owner given to the files a deployment creates.
    pub file_owner_uid: u32,
    /// The group given to the files a deployment creates.
    pub file_group_gid: u32,
}

/// A server repository: the repository and the server's configuration.
#[derive(Debug)]
pub struct ServerRepoHandle {
    pub base: RepoHandle,
    pub server_config: ServerConfig,
}

/// What a deployment does, in order: create `pamm_dir`; point `repo_link`
/// at the repository; link every `.bikey` file found in the `keys`
/// directory of each addon of `addon_dirs` into `keys_dir`; write every
/// script of `scripts`; run the `post_deploy_commands`.
#[derive(Debug)]
pub struct DeployPlan {
    pub pamm_dir: String,
    pub repo_link: String,
    pub keys_dir: String,
    pub addon_dirs: Vec<String>,
    pub mod_launch_param: String,
    pub scripts: Vec<(String, String)>,
    pub post_deploy_commands: Vec<String>,
}

/// `pamm`.
pub open spec fn pamm_name() -> Seq<char> {
    seq!['p', 'a', 'm', 'm']
}

/// `keys`.
pub open spec fn keys_name() -> Seq<char> {
    seq!['k', 'e', 'y', 's']
}

/// The path the server loads an addon from: `pamm/<repo name>/<addon path>`.
pub open spec fn server_addon_path(repo_name: Seq<char>, rel: Seq<char>) -> Seq<char> {
    join_spec(join_spec(pamm_name(), repo_name), rel)
}

/// The server's mod launch parameter: `"-mod=<server addon paths joined by ;>"`,
/// quotes included.
pub open spec fn deploy_mod_launch_param(repo_name: Seq<char>, addons: Seq<Seq<char>>) -> Seq<
    char,
> {
    seq!['"', '-', 'm', 'o', 'd', '='] + join_with(
        Seq::new(addons.len(), |i: int| server_addon_path(repo_name, addons[i])),
        seq![';'],
    ) + seq!['"']
}

/// Whether a file name carries the `.bikey` extension (a name that is
/// nothing but `.bikey` has no extension).
pub open spec fn is_key_file_name(name: Seq<char>) -> bool {
    name.len() > 6 && name.subrange(name.len() - 6, name.len() as int) == seq![
        '.',
        'b',
        'i',
        'k',
        'e',
        'y',
    ]
}

/// Whether a file name carries the `.bikey` extension of server keys.
pub fn is_key_file(name: &str) -> (r: bool)
    ensures
        r == is_key_file_name(name@),
{
    let cs = crate::text::chars_of(name);
    let n = cs.len();
    if n <= 6 {
        return false;
    }
    let r = cs[n - 6] == '.' && cs[n - 5] == 'b' && cs[n - 4] == 'i' && cs[n - 3] == 'k' && cs[n
        - 2] == 'e' && cs[n - 1] == 'y';
    proof {
        let tail = name@.subrange(n - 6, n as int);
        if r {
            assert(tail =~= seq!['.', 'b', 'i', 'k', 'e', 'y']);
        } else {
            if tail == seq!['.', 'b', 'i', 'k', 'e', 'y'] {
                assert(tail[0] == cs@[n - 6]);
                assert(tail[1] == cs@[n - 5]);
                assert(tail[2] == cs@[n - 4]);
                assert(tail[3] == cs@[n - 3]);
                assert(tail[4] == cs@[n - 2]);
                assert(tail[5] == cs@[n - 1]);
            }
        }
    }
    r
}

/// The rendered scripts of a deployment: every template rendered with the
/// pack's name, the mod launch parameter and the date, keeping its path.
pub open spec fn rendered_scripts(
    templates: Seq<(String, String)>,
    pack_name: Seq<char>,
    mod_launch_param: Seq<char>,
    date: Seq<char>,
    scripts: Seq<(String, String)>,
) -> bool {
    &&& scripts.len() == templates.len()
    &&& forall|k: int|
        0 <= k < templates.len() ==> (#[trigger] scripts[k]).0@ == templates[k].0@ && scripts[k].1@
            == rendered_template(templates[k].1@, pack_name, mod_launch_param, date)
}

impl ServerRepoHandle {
    /// The addons a deployment of `name` loads: its required addons and
    /// those of its ancestors (optional addons are never deployed).
    pub open spec fn deploy_addons(&self, name: Seq<char>) -> WalkV {
        self.base.resolve_spec(name, Seq::empty(), true, (self.base.packs@.len() + 1) as nat)
    }

    /// Whether `plan` is the deployment of pack `name` whose addons are
    /// `addons`, rendered with `date`.
    pub open spec fn is_deploy_plan(
        &self,
        plan: DeployPlan,
        name: Seq<char>,
        addons: Seq<Seq<char>>,
        date: Seq<char>,
    ) -> bool {
        let server_dir = self.server_config.server_dir->Some_0@;
        let param = deploy_mod_launch_param(self.base.repo_config.name@, addons);
        &&& plan.pamm_dir@ == join_spec(server_dir, pamm_name())
        &&& plan.repo_link@ == join_spec(plan.pamm_dir@, self.base.repo_config.name@)
        &&& plan.keys_dir@ == join_spec(server_dir, keys_name())
        &&& str_views(plan.addon_dirs@) == addons
        &&& plan.mod_launch_param@ == param
        &&& rendered_scripts(self.server_config.script_templates@, name, param, date, plan.scripts@)
        &&& str_views(plan.post_deploy_commands@) == str_views(
            self.server_config.post_deploy_commands@,
        )
    }

    /// Plans the deployment of a pack, rendering scripts with `date`.
    ///
    /// The server directory must be configured. The pack's required addons
    /// and those of its ancestors are resolved; the server loads them as
    /// `pamm/<repo name>/<pack>/addons/<addon>`, which gives the mod launch
    /// parameter every script template is rendered with.
    pub fn deploy_pack_on(&self, pack_name: &str, date: &str) -> (r: Result<DeployPlan, PammError>)
        requires
            self.server_config.server_dir is Some ==> self.base.chain_ends(pack_name@, Seq::empty()),
        ensures
            self.server_config.server_dir is None ==> (r matches Err(e) && error_view(e)
                == ErrorV::ServerDirNotSet),
            self.server_config.server_dir is Some ==> match self.deploy_addons(pack_name@) {
                WalkV::Done(c) => r matches Ok(p) && self.is_deploy_plan(p, pack_name@, c, date@),
                WalkV::Failed(n, l) => r matches Err(e) && error_view(e) == lookup_error_v(n, l),
                WalkV::Exhausted => false,
            },
    {
        let server_dir = match &self.server_config.server_dir {
            Some(d) => d,
            None => {
                return Err(PammError::ServerDirNotSet);
            },
        };
        let pamm_dir = join_path(server_dir.as_str(), "pamm");
        let repo_link = join_path(pamm_dir.as_str(), self.base.repo_config.name.as_str());
        let keys_dir = join_path(server_dir.as_str(), "keys");
        proof {
            reveal_strlit("pamm");
            reveal_strlit("keys");
            assert("pamm"@ =~= pamm_name());
            assert("keys"@ =~= keys_name());
        }
        let empty: Vec<String> = Vec::new();
        proof {
            assert(empty@ =~= Seq::<String>::empty());
        }
        let addons = match self.base.resolve_addons_in(pack_name, &empty, true) {
            Ok(a) => a,
            Err(e) => {
                proof {
                    match self.deploy_addons(pack_name@) {
                        WalkV::Failed(n, l) => {
                            assert(crate::handle::lookup_error(e, n, l));
                            assert(error_view(e) == lookup_error_v(n, l));
                        },
                        _ => {},
                    }
                }
                return Err(e);
            },
        };
        let base_dir = join_path("pamm", self.base.repo_config.name.as_str());
        let mut server_paths: Vec<String> = Vec::new();
        let mut i: usize = 0;
        while i < addons.len()
            invariant
                i <= addons.len(),
                base_dir@ == join_spec(pamm_name(), self.base.repo_config.name@),
                server_paths@.len() == i,
                forall|j: int|
                    0 <= j < i ==> #[trigger] server_paths@[j]@ == server_addon_path(
                        self.base.repo_config.name@,
                        addons@[j]@,
                    ),
            decreases addons.len() - i,
        {
            server_paths.push(join_path(base_dir.as_str(), addons[i].as_str()));
            i = i + 1;
        }
        let mut param = String::new();
        push_char(&mut param, '"');
        param.append("-mod=");
        let joined = join_strings(server_paths.as_slice(), ";");
        param.append(joined.as_str());
        push_char(&mut param, '"');
        proof {
            reveal_strlit("-mod=");
            reveal_strlit(";");
            assert(";"@ =~= seq![';']);
            assert(views(server_paths@) =~= Seq::new(
                str_views(addons@).len(),
                |j: int| server_addon_path(self.base.repo_config.name@, str_views(addons@)[j]),
            ));
            assert(param@ =~= deploy_mod_launch_param(
                self.base.repo_config.name@,
                str_views(addons@),
            ));
        }
        let templates = &self.server_config.script_templates;
        let mut scripts: Vec<(String, String)> = Vec::new();
        let mut k: usize = 0;
        while k < templates.len()
            invariant
                k <= templates.len(),
                scripts@.len() == k,
                forall|j: int|
                    0 <= j < k ==> (#[trigger] scripts@[j]).0@ == templates@[j].0@ && scripts@[j].1@
                        == rendered_template(templates@[j].1@, pack_name@, param@, date@),
            decreases templates.len() - k,
        {
            let context = ScriptTemplateContext::new(
                pack_name,
                templates[k].0.as_str(),
                param.as_str(),
            );
            let mut content = templates[k].1.clone();
            render_script_template_on(&context, &mut content, date);
            scripts.push((templates[k].0.clone(), content));
            k = k + 1;
        }
        let commands = copy_strings(&self.server_config.post_deploy_commands);
        Ok(
            DeployPlan {
                pamm_dir,
                repo_link,
                keys_dir,
                addon_dirs: addons,
                mod_launch_param: param,
                scripts,
                post_deploy_commands: commands,
            },
        )
    }

    /// Plans the deployment of a pack, rendering scripts with today's date
    /// (see [`ServerRepoHandle::deploy_pack_on`]).
    pub fn deploy_pack(&self, pack_name: &str) -> (r: Result<DeployPlan, PammError>)
        requires
            self.server_config.server_dir is Some ==> self.base.chain_ends(pack_name@, Seq::empty()),
        ensures
            self.server_config.server_dir is None ==> (r matches Err(e) && error_view(e)
                == ErrorV::ServerDirNotSet),
            self.server_config.server_dir is Some ==> match self.deploy_addons(pack_name@) {
                WalkV::Done(c) => r matches Ok(p) && exists|date: Seq<char>|
                    is_datestamp(date) && self.is_deploy_plan(p, pack_name@, c, date),
                WalkV::Failed(n, l) => r matches Err(e) && error_view(e) == lookup_error_v(n, l),
                WalkV::Exhausted => false,
            },
    {
        let date = crate::templating::today_datestamp();
        self.deploy_pack_on(pack_name, date.as_str())
    }
}

} // verus!
