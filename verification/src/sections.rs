//! The sections that panels are divided into.
use vstd::prelude::*;

verus! {

/// The sections of the lifecycle tools.
#[derive(Clone, Copy, Debug, PartialEq, Eq, Structural)]
pub enum LifecycleSection {
    OpenApi,
    Mock,
    Git,
    Plugin,
    Ai,
}

impl LifecycleSection {
    /// The title of the section.
    pub open spec fn title(self) -> Seq<char> {
        match self {
            LifecycleSection::OpenApi => "OpenAPI"@,
            LifecycleSection::Mock => "Mock"@,
            LifecycleSection::Git => "Git"@,
            LifecycleSection::Plugin => "Plugins"@,
            LifecycleSection::Ai => "AI"@,
        }
    }

    /// Which of the sections it is.
    pub open spec fn index(self) -> int {
        match self {
            LifecycleSection::OpenApi => 0,
            LifecycleSection::Mock => 1,
            LifecycleSection::Git => 2,
            LifecycleSection::Plugin => 3,
            LifecycleSection::Ai => 4,
        }
    }

    /// The title of the section.
    pub fn label(self) -> (r: &'static str)
        ensures
            r@ == self.title(),
    {
        match self {
            LifecycleSection::OpenApi => "OpenAPI",
            LifecycleSection::Mock => "Mock",
            LifecycleSection::Git => "Git",
            LifecycleSection::Plugin => "Plugins",
            LifecycleSection::Ai => "AI",
        }
    }

    /// Which of the sections it is.
    pub fn position(self) -> (r: usize)
        ensures
            r == self.index(),
    {
        match self {
            LifecycleSection::OpenApi => 0,
            LifecycleSection::Mock => 1,
            LifecycleSection::Git => 2,
            LifecycleSection::Plugin => 3,
            LifecycleSection::Ai => 4,
        }
    }

    /// The section that stands at an index, if any does.
    pub fn at(index: usize) -> (r: Option<LifecycleSection>)
        ensures
            match r {
                Some(s) => s.index() == index,
                None => index >= 5,
            },
    {
        match index {
            0 => Some(LifecycleSection::OpenApi),
            1 => Some(LifecycleSection::Mock),
            2 => Some(LifecycleSection::Git),
            3 => Some(LifecycleSection::Plugin),
            4 => Some(LifecycleSection::Ai),
            _ => None,
        }
    }
}

/// The sections of the protocol tools.
#[derive(Clone, Copy, Debug, PartialEq, Eq, Structural)]
pub enum ProtocolToolSection {
    Graphql,
    Streams,
    Grpc,
}

impl ProtocolToolSection {
    /// The title of the section.
    pub open spec fn title(self) -> Seq<char> {
        match self {
            ProtocolToolSection::Graphql => "GraphQL"@,
            ProtocolToolSection::Streams => "WebSocket / SSE"@,
            ProtocolToolSection::Grpc => "gRPC"@,
        }
    }

    /// Which of the sections it is.
    pub open spec fn index(self) -> int {
        match self {
            ProtocolToolSection::Graphql => 0,
            ProtocolToolSection::Streams => 1,
            ProtocolToolSection::Grpc => 2,
        }
    }

    /// The title of the section.
    pub fn label(self) -> (r: &'static str)
        ensures
            r@ == self.title(),
    {
        match self {
            ProtocolToolSection::Graphql => "GraphQL",
            ProtocolToolSection::Streams => "WebSocket / SSE",
            ProtocolToolSection::Grpc => "gRPC",
        }
    }

    /// Which of the sections it is.
    pub fn position(self) -> (r: usize)
        ensures
            r == self.index(),
    {
        match self {
            ProtocolToolSection::Graphql => 0,
            ProtocolToolSection::Streams => 1,
            ProtocolToolSection::Grpc => 2,
        }
    }

    /// The section that stands at an index, if any does.
    pub fn at(index: usize) -> (r: Option<ProtocolToolSection>)
        ensures
            match r {
                Some(s) => s.index() == index,
                None => index >= 3,
            },
    {
        match index {
            0 => Some(ProtocolToolSection::Graphql),
            1 => Some(ProtocolToolSection::Streams),
            2 => Some(ProtocolToolSection::Grpc),
            _ => None,
        }
    }
}

/// The sections of the workspace tools.
#[derive(Clone, Copy, Debug, PartialEq, Eq, Structural)]
pub enum WorkspaceToolSection {
    Environments,
    Search,
    Import,
    Codegen,
    Settings,
}

impl WorkspaceToolSection {
    /// The title of the section.
    pub open spec fn title(self) -> Seq<char> {
        match self {
            WorkspaceToolSection::Environments => "Environments"@,
            WorkspaceToolSection::Search => "Search"@,
            WorkspaceToolSection::Import => "Import"@,
            WorkspaceToolSection::Codegen => "Codegen"@,
            WorkspaceToolSection::Settings => "Settings"@,
        }
    }

    /// Which of the sections it is.
    pub open spec fn index(self) -> int {
        match self {
            WorkspaceToolSection::Environments => 0,
            WorkspaceToolSection::Search => 1,
            WorkspaceToolSection::Import => 2,
            WorkspaceToolSection::Codegen => 3,
            WorkspaceToolSection::Settings => 4,
        }
    }

    /// The title of the section.
    pub fn label(self) -> (r: &'static str)
        ensures
            r@ == self.title(),
    {
        match self {
            WorkspaceToolSection::Environments => "Environments",
            WorkspaceToolSection::Search => "Search",
            WorkspaceToolSection::Import => "Import",
            WorkspaceToolSection::Codegen => "Codegen",
            WorkspaceToolSection::Settings => "Settings",
        }
    }

    /// Which of the sections it is.
    pub fn position(self) -> (r: usize)
        ensures
            r == self.index(),
    {
        match self {
            WorkspaceToolSection::Environments => 0,
            WorkspaceToolSection::Search => 1,
            WorkspaceToolSection::Import => 2,
            WorkspaceToolSection::Codegen => 3,
            WorkspaceToolSection::Settings => 4,
        }
    }

    /// The section that stands at an index, if any does.
    pub fn at(index: usize) -> (r: Option<WorkspaceToolSection>)
        ensures
            match r {
                Some(s) => s.index() == index,
                None => index >= 5,
            },
    {
        match index {
            0 => Some(WorkspaceToolSection::Environments),
            1 => Some(WorkspaceToolSection::Search),
            2 => Some(WorkspaceToolSection::Import),
            3 => Some(WorkspaceToolSection::Codegen),
            4 => Some(WorkspaceToolSection::Settings),
            _ => None,
        }
    }
}

/// The sections of a request.
#[derive(Clone, Copy, Debug, PartialEq, Eq, Structural)]
pub enum RequestSection {
    Params,
    Authorization,
    Headers,
    Body,
    Scripts,
    Tests,
    Settings,
    Documentation,
}

impl RequestSection {
    /// The title of the section.
    pub open spec fn title(self) -> Seq<char> {
        match self {
            RequestSection::Params => "Params"@,
            RequestSection::Authorization => "Authorization"@,
            RequestSection::Headers => "Headers"@,
            RequestSection::Body => "Body"@,
            RequestSection::Scripts => "Scripts"@,
            RequestSection::Tests => "Tests"@,
            RequestSection::Settings => "Settings"@,
            RequestSection::Documentation => "Documentation"@,
        }
    }

    /// Which of the sections it is.
    pub open spec fn index(self) -> int {
        match self {
            RequestSection::Params => 0,
            RequestSection::Authorization => 1,
            RequestSection::Headers => 2,
            RequestSection::Body => 3,
            RequestSection::Scripts => 4,
            RequestSection::Tests => 5,
            RequestSection::Settings => 6,
            RequestSection::Documentation => 7,
        }
    }

    /// The title of the section.
    pub fn label(self) -> (r: &'static str)
        ensures
            r@ == self.title(),
    {
        match self {
            RequestSection::Params => "Params",
            RequestSection::Authorization => "Authorization",
            RequestSection::Headers => "Headers",
            RequestSection::Body => "Body",
            RequestSection::Scripts => "Scripts",
            RequestSection::Tests => "Tests",
            RequestSection::Settings => "Settings",
            RequestSection::Documentation => "Documentation",
        }
    }

    /// Which of the sections it is.
    pub fn position(self) -> (r: usize)
        ensures
            r == self.index(),
    {
        match self {
            RequestSection::Params => 0,
            RequestSection::Authorization => 1,
            RequestSection::Headers => 2,
            RequestSection::Body => 3,
            RequestSection::Scripts => 4,
            RequestSection::Tests => 5,
            RequestSection::Settings => 6,
            RequestSection::Documentation => 7,
        }
    }

    /// The section that stands at an index, if any does.
    pub fn at(index: usize) -> (r: Option<RequestSection>)
        ensures
            match r {
                Some(s) => s.index() == index,
                None => index >= 8,
            },
    {
        match index {
            0 => Some(RequestSection::Params),
            1 => Some(RequestSection::Authorization),
            2 => Some(RequestSection::Headers),
            3 => Some(RequestSection::Body),
            4 => Some(RequestSection::Scripts),
            5 => Some(RequestSection::Tests),
            6 => Some(RequestSection::Settings),
            7 => Some(RequestSection::Documentation),
            _ => None,
        }
    }
}

/// The views of a response.
#[derive(Clone, Copy, Debug, PartialEq, Eq, Structural)]
pub enum ResponseTab {
    Pretty,
    Raw,
    Headers,
    Timeline,
    Tests,
    Console,
}

impl ResponseTab {
    /// The title of the section.
    pub open spec fn title(self) -> Seq<char> {
        match self {
            ResponseTab::Pretty => "Pretty"@,
            ResponseTab::Raw => "Raw"@,
            ResponseTab::Headers => "Headers"@,
            ResponseTab::Timeline => "Timeline"@,
            ResponseTab::Tests => "Tests"@,
            ResponseTab::Console => "Console"@,
        }
    }

    /// Which of the sections it is.
    pub open spec fn index(self) -> int {
        match self {
            ResponseTab::Pretty => 0,
            ResponseTab::Raw => 1,
            ResponseTab::Headers => 2,
            ResponseTab::Timeline => 3,
            ResponseTab::Tests => 4,
            ResponseTab::Console => 5,
        }
    }

    /// The title of the section.
    pub fn label(self) -> (r: &'static str)
        ensures
            r@ == self.title(),
    {
        match self {
            ResponseTab::Pretty => "Pretty",
            ResponseTab::Raw => "Raw",
            ResponseTab::Headers => "Headers",
            ResponseTab::Timeline => "Timeline",
            ResponseTab::Tests => "Tests",
            ResponseTab::Console => "Console",
        }
    }

    /// Which of the sections it is.
    pub fn position(self) -> (r: usize)
        ensures
            r == self.index(),
    {
        match self {
            ResponseTab::Pretty => 0,
            ResponseTab::Raw => 1,
            ResponseTab::Headers => 2,
            ResponseTab::Timeline => 3,
            ResponseTab::Tests => 4,
            ResponseTab::Console => 5,
        }
    }

    /// The section that stands at an index, if any does.
    pub fn at(index: usize) -> (r: Option<ResponseTab>)
        ensures
            match r {
                Some(s) => s.index() == index,
                None => index >= 6,
            },
    {
        match index {
            0 => Some(ResponseTab::Pretty),
            1 => Some(ResponseTab::Raw),
            2 => Some(ResponseTab::Headers),
            3 => Some(ResponseTab::Timeline),
            4 => Some(ResponseTab::Tests),
            5 => Some(ResponseTab::Console),
            _ => None,
        }
    }
}

} // verus!
