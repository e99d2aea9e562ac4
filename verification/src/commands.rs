//! The command model of the command-line client: plain data, one type
//! per command or option group. The thin argument-parsing shell converts
//! into these and dispatches on them.

use vstd::prelude::*;
use crate::params::{PagingParams, UpdateUser};

verus! {

/// Options shared by the release subcommands: the core they refer to.
#[derive(Clone, Debug)]
pub struct CoreReleaseOpts {
    pub core: String,
    pub command: ReleaseCommand,
}

/// A release subcommand.
#[derive(Clone, Debug)]
pub enum ReleaseCommand {
    List(ReleaseListOpts),
    Create(ReleaseCreateOpts),
    Get(ReleaseGetOpts),
    Download(ReleaseDownloadOpts),
    Artifacts(ReleaseArtifactsOpts),
}

/// List the artifacts of a release.
#[derive(Clone, Debug)]
pub struct ReleaseArtifactsOpts {
    pub release_id: String,
}

/// Download one artifact of a release.
#[derive(Clone, Debug)]
pub struct ReleaseDownloadOpts {
    pub release_id: String,
    pub artifact: u32,
}

/// List releases.
#[derive(Clone, Debug)]
pub struct ReleaseListOpts {
    pub paging: PagingParams,
}

/// Create a release; `files` are uploaded along with it.
#[derive(Clone, Debug)]
pub struct ReleaseCreateOpts {
    pub platform: String,
    pub version: String,
    pub notes: String,
    pub date_released: Option<String>,
    pub prerelease: bool,
    pub links: Vec<String>,
    pub metadata: Vec<String>,
    pub files: Vec<String>,
}

/// Get one release.
#[derive(Clone, Debug)]
pub struct ReleaseGetOpts {
    pub id: String,
}

/// The core command group.
#[derive(Clone, Debug)]
pub struct CoreOpts {
    pub command: CoreCommand,
}

/// A core subcommand.
#[derive(Clone, Debug)]
pub enum CoreCommand {
    Releases(CoreReleaseOpts),
    List(CoresListOpts),
    Create(CoreCreateOpts),
    Get(CoreGetOpts),
    Update(CoreUpdateOpts),
}

/// List cores.
#[derive(Clone, Debug)]
pub struct CoresListOpts {
    pub paging: PagingParams,
}

/// Create a core.
#[derive(Clone, Debug)]
pub struct CoreCreateOpts {
    pub name: String,
    pub slug: String,
    pub description: String,
    pub system: String,
    pub team: String,
    pub links: Vec<String>,
    pub metadata: Vec<String>,
}

/// Get one core.
#[derive(Clone, Debug)]
pub struct CoreGetOpts {
    pub id: String,
}

/// Update a core.
#[derive(Clone, Debug)]
pub struct CoreUpdateOpts {}

/// The team command group.
#[derive(Clone, Debug)]
pub struct TeamOpts {
    pub command: TeamCommand,
}

/// A team subcommand.
#[derive(Clone, Debug)]
pub enum TeamCommand {
    List(TeamsListOpts),
    Get(TeamGet),
    Create(TeamCreateOpts),
}

/// List teams.
#[derive(Clone, Debug)]
pub struct TeamsListOpts {
    pub paging: PagingParams,
}

/// Get one team.
#[derive(Clone, Debug)]
pub struct TeamGet {
    pub id: String,
}

/// Create a team.
#[derive(Clone, Debug)]
pub struct TeamCreateOpts {
    pub name: String,
    pub slug: String,
    pub description: String,
    pub links: Vec<String>,
    pub metadata: Vec<String>,
}

/// The user command group.
#[derive(Clone, Debug)]
pub struct UserOpts {
    pub command: UserCommand,
}

/// A user subcommand.
#[derive(Clone, Debug)]
pub enum UserCommand {
    Update(UpdateUser),
    List(UsersList),
    Get(UserGet),
}

/// The platform command group.
#[derive(Clone, Debug)]
pub struct PlatformOpts {
    pub command: PlatformCommand,
}

/// A platform subcommand.
#[derive(Clone, Debug)]
pub enum PlatformCommand {
    List(PlatformsListOpts),
    Create(PlatformCreateOpts),
}

/// List platforms.
#[derive(Clone, Debug)]
pub struct PlatformsListOpts {
    pub paging: PagingParams,
}

/// Create a platform.
#[derive(Clone, Debug)]
pub struct PlatformCreateOpts {
    pub name: String,
    pub slug: String,
    pub team: String,
    pub description: String,
    pub links: Vec<String>,
    pub metadata: Vec<String>,
}

/// The system command group.
#[derive(Clone, Debug)]
pub struct SystemOpts {
    pub command: SystemCommand,
}

/// A system subcommand.
#[derive(Clone, Debug)]
pub enum SystemCommand {
    List(SystemsListOpts),
    Create(SystemCreateOpts),
    Get(SystemGetOpts),
}

/// Get one system.
#[derive(Clone, Debug)]
pub struct SystemGetOpts {
    pub id: String,
}

/// List systems.
#[derive(Clone, Debug)]
pub struct SystemsListOpts {
    pub paging: PagingParams,
}

/// Create a system.
#[derive(Clone, Debug)]
pub struct SystemCreateOpts {
    pub name: String,
    pub slug: String,
    pub description: String,
    pub manufacturer: String,
    pub links: Vec<String>,
    pub metadata: Vec<String>,
    pub team: String,
}

/// List users.
#[derive(Clone, Debug)]
pub struct UsersList {
    pub paging: PagingParams,
}

/// Get one user.
#[derive(Clone, Debug)]
pub struct UserGet {
    pub id: String,
}

} // verus!
