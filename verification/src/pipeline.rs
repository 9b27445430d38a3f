//! Local pipelines: the environment a job runs in, and the tasks submitted
//! to it.

use vstd::prelude::*;
use vstd::string::StringExecFns;
use crate::config::Configuration;
use crate::error::{GeaFlowError, GeaFlowResult};
use crate::types::{Vertex, Edge};
use crate::graph::{InMemoryGraph, GraphKey};

verus! {

/// How a pipeline ended: success, or a failure with its message.
#[derive(Debug, Clone)]
pub struct PipelineResult {
    pub success: bool,
    pub error_message: Option<String>,
}

impl PipelineResult {
    /// A successful run.
    pub fn success() -> (r: Self)
        ensures
            r.success,
            r.error_message is None,
    {
        PipelineResult { success: true, error_message: None }
    }

    /// A failed run with its message.
    pub fn failure(msg: String) -> (r: Self)
        ensures
            !r.success,
            r.error_message matches Some(m) && m@ == msg@,
    {
        PipelineResult { success: false, error_message: Some(msg) }
    }
}

/// Where the runtime executes: in one process, or across workers.
#[derive(Debug, Clone)]
pub enum RuntimeMode {
    Local,
    Distributed,
}

/// The environment a pipeline runs in.
#[derive(Debug, Clone)]
pub struct Environment {
    pub mode: RuntimeMode,
    pub config: Configuration,
}

impl Environment {
    /// A single-process environment, its configuration empty.
    pub fn local() -> (r: Self)
        ensures
            r.mode is Local,
            r.config.entries@.len() == 0,
    {
        Environment { mode: RuntimeMode::Local, config: Configuration::new() }
    }

    /// A distributed environment, its configuration empty.
    pub fn distributed() -> (r: Self)
        ensures
            r.mode is Distributed,
            r.config.entries@.len() == 0,
    {
        Environment { mode: RuntimeMode::Distributed, config: Configuration::new() }
    }
}

/// A pipeline requires a local environment; a distributed one is refused.
pub fn ensure_local(env: &Environment) -> (r: GeaFlowResult<()>)
    ensures
        r is Ok <==> env.mode is Local,
        r matches Err(e) ==> e.is_invalid_argument(),
{
    match env.mode {
        RuntimeMode::Local => Ok(()),
        RuntimeMode::Distributed => Err(
            GeaFlowError::InvalidArgument(
                <String as StringExecFns>::from_str(
                    "environment mode is distributed; local pipeline required",
                ),
            ),
        ),
    }
}

/// The context a task runs in.
pub trait PipelineTaskContext {
    fn name(&self) -> String;
}

/// A unit of work submitted to a pipeline.
pub trait PipelineTask {
    fn name(&self) -> String;

    fn run(&self, ctx: &mut LocalTaskContext) -> GeaFlowResult<()>;
}

/// The local task context: its name and the environment.
pub struct LocalTaskContext {
    pub task_name: String,
    pub env: Environment,
}

impl PipelineTaskContext for LocalTaskContext {
    fn name(&self) -> String {
        self.task_name.clone()
    }
}

impl LocalTaskContext {
    /// Build an in-memory graph for a task.
    pub fn build_in_memory_graph<K: GraphKey, VV: Clone, EV: Clone>(
        &self,
        vertices: Vec<Vertex<K, VV>>,
        edges: Vec<Edge<K, EV>>,
    ) -> (r: InMemoryGraph<K, VV, EV>)
        ensures
            r.edges@.len() == edges@.len(),
    {
        InMemoryGraph::new(vertices, edges)
    }
}

/// A pipeline of tasks run in order in a local environment.
pub struct LocalPipeline<T: PipelineTask> {
    pub env: Environment,
    pub tasks: Vec<T>,
}

impl<T: PipelineTask> LocalPipeline<T> {
    /// An empty pipeline over an environment.
    pub fn new(env: Environment) -> (r: Self)
        ensures
            r.tasks@.len() == 0,
    {
        LocalPipeline { env, tasks: Vec::new() }
    }

    /// Queue one task.
    pub fn submit(&mut self, task: T)
        ensures
            final(self).tasks@.len() == old(self).tasks@.len() + 1,
            final(self).env == old(self).env,
    {
        self.tasks.push(task);
    }

    /// Run every task in order; the first failure ends the run with that
    /// task's name and message.
    pub fn execute(&mut self) -> (r: PipelineResult) {
        let n = self.tasks.len();
        let mut i: usize = 0;
        while i < n
            invariant
                i <= n,
                n == self.tasks@.len(),
            decreases n - i,
        {
            let mut ctx = LocalTaskContext {
                task_name: <String as StringExecFns>::from_str("local"),
                env: self.env.clone(),
            };
            match self.tasks[i].run(&mut ctx) {
                Ok(()) => {},
                Err(e) => {
                    let mut msg = <String as StringExecFns>::from_str("task ");
                    msg.append(self.tasks[i].name().as_str());
                    msg.append(" failed: ");
                    msg.append(e.message().as_str());
                    return PipelineResult::failure(msg);
                },
            }
            i += 1;
        }
        PipelineResult::success()
    }
}

} // verus!
