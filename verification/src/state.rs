//! The states the tool goes through before it works on a project: its
//! directories located, then the manifest read, then the lock loaded.
use vstd::prelude::*;

use crate::dirs::VdmDirs;
use crate::error::VdmError;
use crate::lock::VdmLock;
use crate::manifest::VdmManifest;
use crate::paths::VdmPaths;

verus! {

/// The directories are located; the project is not read yet.
#[derive(Debug)]
pub struct VdmStateInitializing {
    pub dirs: VdmDirs,
}

/// A step failed; the state keeps what it had and the error.
#[derive(Debug)]
pub struct VdmStateErrored {
    pub dirs: Option<VdmDirs>,
    pub paths: Option<VdmPaths>,
    pub error: VdmError,
}

/// The project's manifest is read.
#[derive(Debug)]
pub struct VdmStateInitialized {
    pub dirs: VdmDirs,
    pub paths: VdmPaths,
    pub manifest: VdmManifest,
}

/// The project's lock is loaded too.
#[derive(Debug)]
pub struct VdmStateLocked {
    pub dirs: VdmDirs,
    pub paths: VdmPaths,
    pub manifest: VdmManifest,
    pub lock: VdmLock,
}

/// The state of the tool.
#[derive(Debug)]
pub enum VdmState {
    Initializing(VdmStateInitializing),
    Errored(VdmStateErrored),
    Initialized(VdmStateInitialized),
    Locked(VdmStateLocked),
}

/// What reading the project gave: no project paths, paths but no manifest,
/// or both.
#[derive(Debug)]
pub enum VdmProjectRead {
    PathsFailed(VdmError),
    ManifestFailed(VdmPaths, VdmError),
    Read(VdmPaths, VdmManifest),
}

/// What initializing a state asks for next: nothing more (the state is
/// final for this step), or the project read from disk.
#[derive(Debug)]
pub enum VdmInitializeStep {
    Done(VdmState),
    ReadProject(VdmStateInitializing),
}

/// What loading the lock asks for next: nothing more, or the lock read from disk.
#[derive(Debug)]
pub enum VdmLockStep {
    Done(VdmState),
    ReadLock(VdmStateInitialized),
}

impl VdmStateErrored {
    /// The state after creating the state failed with `err`.
    pub fn create_error(err: VdmError) -> (r: VdmState)
        ensures
            r == VdmState::Errored(VdmStateErrored {
                dirs: None,
                paths: None,
                error: VdmError::StateCreation(Box::new(err)),
            }),
    {
        VdmState::Errored(VdmStateErrored { dirs: None, paths: None, error: VdmError::StateCreation(Box::new(err)) })
    }

    /// The state after initializing failed with `err`, keeping the
    /// directories and whatever paths were found.
    pub fn initialize_error(dirs: VdmDirs, paths: Option<VdmPaths>, err: VdmError) -> (r: VdmState)
        ensures
            r == VdmState::Errored(VdmStateErrored {
                dirs: Some(dirs),
                paths: paths,
                error: VdmError::StateInitialization(Box::new(err)),
            }),
    {
        VdmState::Errored(VdmStateErrored {
            dirs: Some(dirs),
            paths,
            error: VdmError::StateInitialization(Box::new(err)),
        })
    }
}

impl VdmStateInitializing {
    /// The first state: the directories located, or the error of locating them.
    pub fn create_state() -> (r: VdmState)
        ensures
            r is Initializing || r == VdmStateErrored::spec_create_error(VdmError::DirsUnavailable),
    {
        Self::from_dirs(VdmDirs::resolve())
    }

    /// The first state from the outcome of locating the directories.
    pub fn from_dirs(dirs: Result<VdmDirs, VdmError>) -> (r: VdmState)
        ensures
            match dirs {
                Ok(d) => r == VdmState::Initializing(VdmStateInitializing { dirs: d }),
                Err(e) => r == VdmStateErrored::spec_create_error(e),
            },
    {
        match dirs {
            Ok(dirs) => VdmState::Initializing(VdmStateInitializing { dirs }),
            Err(error) => VdmStateErrored::create_error(error),
        }
    }

    /// The state once the project was read: initialized with its paths and
    /// manifest, or errored keeping what was found.
    pub fn as_initialized_state(self, read: VdmProjectRead) -> (r: VdmState)
        ensures
            match read {
                VdmProjectRead::Read(paths, manifest) => r == VdmState::Initialized(VdmStateInitialized {
                    dirs: self.dirs,
                    paths: paths,
                    manifest: manifest,
                }),
                VdmProjectRead::ManifestFailed(paths, e) => r == VdmStateErrored::spec_initialize_error(self.dirs, Some(paths), e),
                VdmProjectRead::PathsFailed(e) => r == VdmStateErrored::spec_initialize_error(self.dirs, None, e),
            },
    {
        match read {
            VdmProjectRead::Read(paths, manifest) => VdmState::Initialized(VdmStateInitialized {
                dirs: self.dirs,
                paths,
                manifest,
            }),
            VdmProjectRead::ManifestFailed(paths, err) => VdmStateErrored::initialize_error(self.dirs, Some(paths), err),
            VdmProjectRead::PathsFailed(err) => VdmStateErrored::initialize_error(self.dirs, None, err),
        }
    }
}

impl VdmStateErrored {
    /// The state [`VdmStateErrored::create_error`] gives.
    pub open spec fn spec_create_error(err: VdmError) -> VdmState {
        VdmState::Errored(VdmStateErrored { dirs: None, paths: None, error: VdmError::StateCreation(Box::new(err)) })
    }

    /// The state [`VdmStateErrored::initialize_error`] gives.
    pub open spec fn spec_initialize_error(dirs: VdmDirs, paths: Option<VdmPaths>, err: VdmError) -> VdmState {
        VdmState::Errored(VdmStateErrored {
            dirs: Some(dirs),
            paths: paths,
            error: VdmError::StateInitialization(Box::new(err)),
        })
    }
}

impl VdmStateInitialized {
    /// The state once the lock was read.
    pub fn as_locked(self, lock: VdmLock) -> (r: VdmStateLocked)
        ensures
            r == (VdmStateLocked { dirs: self.dirs, paths: self.paths, manifest: self.manifest, lock: lock }),
    {
        VdmStateLocked { dirs: self.dirs, paths: self.paths, manifest: self.manifest, lock }
    }
}

impl VdmState {
    /// The first state.
    pub fn create() -> (r: VdmState)
        ensures
            r is Initializing || r == VdmStateErrored::spec_create_error(VdmError::DirsUnavailable),
    {
        VdmStateInitializing::create_state()
    }

    /// Initializes the state: an errored state stays as it is, an
    /// initializing one asks for the project to be read, and one already
    /// initialized is refused.
    pub fn initialize(self) -> (r: Result<VdmInitializeStep, VdmError>)
        ensures
            match self {
                VdmState::Errored(_) => r == Ok::<VdmInitializeStep, VdmError>(VdmInitializeStep::Done(self)),
                VdmState::Initializing(s) => r == Ok::<VdmInitializeStep, VdmError>(VdmInitializeStep::ReadProject(s)),
                VdmState::Initialized(_) | VdmState::Locked(_) => r == Err::<VdmInitializeStep, VdmError>(VdmError::AlreadyInitialized),
            },
    {
        match self {
            VdmState::Errored(_) => Ok(VdmInitializeStep::Done(self)),
            VdmState::Initializing(state) => Ok(VdmInitializeStep::ReadProject(state)),
            VdmState::Initialized(_) | VdmState::Locked(_) => Err(VdmError::AlreadyInitialized),
        }
    }

    /// Loads the lock: an errored state stays as it is, an initialized one
    /// asks for the lock to be read, and the others are refused.
    pub fn initialize_lock(self) -> (r: Result<VdmLockStep, VdmError>)
        ensures
            match self {
                VdmState::Errored(_) => r == Ok::<VdmLockStep, VdmError>(VdmLockStep::Done(self)),
                VdmState::Initializing(_) => r == Err::<VdmLockStep, VdmError>(VdmError::LockWhileInitializing),
                VdmState::Initialized(s) => r == Ok::<VdmLockStep, VdmError>(VdmLockStep::ReadLock(s)),
                VdmState::Locked(_) => r == Err::<VdmLockStep, VdmError>(VdmError::AlreadyLocked),
            },
    {
        match self {
            VdmState::Errored(_) => Ok(VdmLockStep::Done(self)),
            VdmState::Initializing(_) => Err(VdmError::LockWhileInitializing),
            VdmState::Initialized(state) => Ok(VdmLockStep::ReadLock(state)),
            VdmState::Locked(_) => Err(VdmError::AlreadyLocked),
        }
    }
}

} // verus!
