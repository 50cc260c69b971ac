use vstd::prelude::*;

verus! {

/// A stored replication profile: copy `location` into `destiny` every
/// `interval` seconds.
#[derive(Debug, Clone, PartialEq)]
pub struct Folder {
    /// Identifier given by the store.
    pub id: i32,
    /// Label, used only for messages.
    pub name: String,
    /// Directory whose contents are replicated.
    pub location: String,
    /// Directory the contents are copied into.
    pub destiny: String,
    /// Seconds between two copies.
    pub interval: i32,
}

/// A profile that is about to be stored; the store gives it its identifier.
#[derive(Debug, Clone, PartialEq)]
pub struct NewFolder {
    pub name: String,
    pub location: String,
    pub destiny: String,
    pub interval: i32,
}

/// Why a copy of a profile did not happen, or did not finish.
#[derive(Debug, Clone, PartialEq)]
pub enum CopyFailure {
    /// The source directory, named here, does not exist.
    SourceMissing(String),
    /// The destination directory, named here, does not exist.
    DestinationMissing(String),
    /// The recursive copy itself failed; the text describes why.
    Transfer(String),
}

/// A recursive copy to carry out: the contents of `source` go directly under
/// `destination`, replacing entries with the same relative path.
#[derive(Debug, Clone, PartialEq)]
pub struct CopyRequest {
    pub source: String,
    pub destination: String,
    /// Replace existing files and directories.
    pub overwrite: bool,
    /// Copy only the contents of `source`: its children land directly under
    /// `destination`, with no folder of the source's name in between.
    pub content_only: bool,
}

pub open spec fn source_missing_text(path: Seq<char>) -> Seq<char> {
    "Original path "@ + path + " do not exists!"@
}

pub open spec fn destination_missing_text(path: Seq<char>) -> Seq<char> {
    "Destiny path "@ + path + " do not exists!"@
}

impl CopyFailure {
    /// The text a log line shows for this failure.
    pub open spec fn text(&self) -> Seq<char> {
        match self {
            CopyFailure::SourceMissing(p) => source_missing_text(p@),
            CopyFailure::DestinationMissing(p) => destination_missing_text(p@),
            CopyFailure::Transfer(reason) => reason@,
        }
    }

    /// Human-readable description of the failure.
    pub fn description(&self) -> (r: String)
        ensures
            r@ == self.text(),
    {
        match self {
            CopyFailure::SourceMissing(p) => {
                let r = String::from_str("Original path ");
                let r = r.concat(p.as_str());
                r.concat(" do not exists!")
            },
            CopyFailure::DestinationMissing(p) => {
                let r = String::from_str("Destiny path ");
                let r = r.concat(p.as_str());
                r.concat(" do not exists!")
            },
            CopyFailure::Transfer(reason) => reason.clone(),
        }
    }
}

pub open spec fn copying_text(clock: Seq<char>, name: Seq<char>) -> Seq<char> {
    "["@ + clock + "] Copying profile "@ + name
}

pub open spec fn failure_text(name: Seq<char>, reason: Seq<char>) -> Seq<char> {
    "Profile "@ + name + " error: "@ + reason
}

impl Folder {
    /// Decides a copy of this profile, given whether its two directories exist.
    ///
    /// A missing source is reported first, naming it; then a missing
    /// destination, naming it. Otherwise the result is the request that copies
    /// the contents of `location` into `destiny`, overwriting.
    pub fn do_copy(&self, source_exists: bool, destination_exists: bool) -> (r: Result<
        CopyRequest,
        CopyFailure,
    >)
        ensures
            !source_exists ==> r == Err::<CopyRequest, CopyFailure>(
                CopyFailure::SourceMissing(self.location),
            ),
            source_exists && !destination_exists ==> r == Err::<CopyRequest, CopyFailure>(
                CopyFailure::DestinationMissing(self.destiny),
            ),
            source_exists && destination_exists ==> r == Ok::<CopyRequest, CopyFailure>(
                CopyRequest {
                    source: self.location,
                    destination: self.destiny,
                    overwrite: true,
                    content_only: true,
                },
            ),
    {
        if !source_exists {
            return Err(CopyFailure::SourceMissing(self.location.clone()));
        }
        if !destination_exists {
            return Err(CopyFailure::DestinationMissing(self.destiny.clone()));
        }
        Ok(
            CopyRequest {
                source: self.location.clone(),
                destination: self.destiny.clone(),
                overwrite: true,
                content_only: true,
            },
        )
    }

    /// A copy of this profile with equal fields.
    pub fn duplicate(&self) -> (r: Folder)
        ensures
            r == *self,
    {
        Folder {
            id: self.id,
            name: self.name.clone(),
            location: self.location.clone(),
            destiny: self.destiny.clone(),
            interval: self.interval,
        }
    }

    /// The line announcing a copy of this profile, stamped with `clock`.
    pub fn copying_line(&self, clock: &str) -> (r: String)
        ensures
            r@ == copying_text(clock@, self.name@),
    {
        let r = String::from_str("[");
        let r = r.concat(clock);
        let r = r.concat("] Copying profile ");
        r.concat(self.name.as_str())
    }

    /// The line reporting that a copy of this profile failed.
    pub fn failure_line(&self, failure: &CopyFailure) -> (r: String)
        ensures
            r@ == failure_text(self.name@, failure.text()),
    {
        let reason = failure.description();
        let r = String::from_str("Profile ");
        let r = r.concat(self.name.as_str());
        let r = r.concat(" error: ");
        r.concat(reason.as_str())
    }
}

} // verus!
