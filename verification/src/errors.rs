//! The reasons for which a request is refused.

use vstd::prelude::*;

verus! {

/// A test address of the settings.
#[derive(Debug, Clone, Copy, PartialEq, Eq, Structural)]
pub enum UrlField {
    Latency,
    Download,
    Upload,
}

impl UrlField {
    /// The name that users see.
    pub open spec fn label_view(self) -> Seq<char> {
        match self {
            UrlField::Latency => "延迟测试地址"@,
            UrlField::Download => "下载测速地址"@,
            UrlField::Upload => "上传测速地址"@,
        }
    }

    /// The name that users see.
    pub fn label(self) -> (label: &'static str)
        ensures
            label@ == self.label_view(),
    {
        match self {
            UrlField::Latency => "延迟测试地址",
            UrlField::Download => "下载测速地址",
            UrlField::Upload => "上传测速地址",
        }
    }
}

/// Why a request is refused.
#[derive(Debug)]
pub enum BenchmarkError {
    /// No profile is selected.
    NoProfileSelected,
    /// No node was chosen to take part.
    NoParticipantChosen,
    /// The list of participants was not stored completely.
    SelectionIncomplete,
    /// Nothing was selected and stored before the start.
    SelectionMissing,
    /// The nodes of the selected profiles changed since they were confirmed.
    SelectionOutdated,
    /// No stored node takes part.
    NoParticipantStored,
    /// The state can only come from a change of a profile.
    ReservedState,
    /// No node was named for a new test.
    NoNodeNamed,
    /// The ranking runs and must be stopped first.
    StillEnabled,
    /// The ranking was started again in the meantime.
    EnabledAgain,
    /// A manual batch runs.
    ManualBatchRunning,
    /// A manual batch names no node.
    EmptyBatch,
    /// A manual batch names no profile and none is in use.
    NoCurrentProfile,
    /// No manual batch has this identifier.
    UnknownBatch,
    /// No manual batch with this identifier can be cancelled.
    UnknownBatchToCancel,
    /// No active node has this identifier.
    UnknownNode,
    /// The selected profiles hold no candidate.
    NoCandidate,
    /// A chosen node is no candidate any more.
    CandidatesChanged,
    /// A latency task was handed to the speed schedule.
    LatencyInSpeedSchedule,
    /// A latency task was handed to the speed queue.
    LatencyInSpeedQueue,
    /// A measurement names a node that is not stored.
    ForeignNode,
    /// A sum of stored byte counts leaves the range of the database.
    TrafficOverflow,
    /// A test address is no URL.
    InvalidUrl { field: UrlField, reason: String },
    /// A test address is neither HTTP nor HTTPS.
    UnsupportedScheme { field: UrlField },
    /// A speed test has no address.
    EmptySpeedUrl,
    /// A profile offers neither proxies nor proxy providers.
    NoProxySource,
    /// The profile does not exist.
    UnknownProfile { profile_uid: String },
    /// The profile cannot be tested.
    ProfileNotTestable,
    /// A configuration cannot be written down.
    Unwritable { reason: String },
    /// The controller did not list the nodes.
    NodeListMissing,
    /// The controller did not report a delay.
    DelayMissing { node_name: String },
}

impl BenchmarkError {
    /// The text that users see.
    pub open spec fn text(self) -> Seq<char> {
        match self {
            BenchmarkError::NoProfileSelected => "请先选择至少一个订阅"@,
            BenchmarkError::NoParticipantChosen => "请至少选择一个参赛节点"@,
            BenchmarkError::SelectionIncomplete => "参赛列表没有完整保存，请重新预览后再试"@,
            BenchmarkError::SelectionMissing => "请先选择订阅、勾选节点并保存参赛列表"@,
            BenchmarkError::SelectionOutdated => "订阅节点已经发生变化，请重新检查并保存参赛列表"@,
            BenchmarkError::NoParticipantStored => "请先勾选并保存至少一个参赛节点"@,
            BenchmarkError::ReservedState => "该状态只能由订阅变化产生"@,
            BenchmarkError::NoNodeNamed => "至少选择一个节点"@,
            BenchmarkError::StillEnabled => "请先停止节点评选，再清理历史测试数据"@,
            BenchmarkError::EnabledAgain => "节点评选已经重新运行，请停止后再清理"@,
            BenchmarkError::ManualBatchRunning => "仍有手动批量测速正在运行，请先停止后再清理"@,
            BenchmarkError::EmptyBatch => "没有可测速节点"@,
            BenchmarkError::NoCurrentProfile => "当前没有选中的订阅，无法建立独立测速配置"@,
            BenchmarkError::UnknownBatch => "找不到手动测速任务"@,
            BenchmarkError::UnknownBatchToCancel => "找不到可取消的手动测速任务"@,
            BenchmarkError::UnknownNode => "找不到需要更新的节点"@,
            BenchmarkError::NoCandidate => "当前范围内没有可确认的节点，请先保存并预览"@,
            BenchmarkError::CandidatesChanged => "参赛节点列表已经变化，请重新预览后再确认"@,
            BenchmarkError::LatencyInSpeedSchedule => "延迟任务不能写入速度调度"@,
            BenchmarkError::LatencyInSpeedQueue => "延迟任务不能进入速度队列"@,
            BenchmarkError::ForeignNode => "FOREIGN KEY constraint failed"@,
            BenchmarkError::TrafficOverflow => "integer overflow"@,
            BenchmarkError::InvalidUrl { field, reason } => field.label_view() + "无效: "@ + reason@,
            BenchmarkError::UnsupportedScheme { field } => field.label_view() + "只支持 HTTP 或 HTTPS"@,
            BenchmarkError::EmptySpeedUrl => "测速链接不能为空"@,
            BenchmarkError::NoProxySource => "订阅中没有可用于测速的代理或代理提供者"@,
            BenchmarkError::UnknownProfile { profile_uid } => "找不到订阅 "@ + profile_uid@,
            BenchmarkError::ProfileNotTestable => "所选配置不是可测速订阅"@,
            BenchmarkError::Unwritable { reason } => reason@,
            BenchmarkError::NodeListMissing => "独立 Mihomo 未返回测速节点列表"@,
            BenchmarkError::DelayMissing { node_name } => "节点“"@ + node_name@ + "”未返回有效延迟"@,
        }
    }

    /// The text that users see.
    pub fn message(&self) -> (message: String)
        ensures
            message@ == self.text(),
    {
        match self {
            BenchmarkError::NoProfileSelected => "请先选择至少一个订阅".to_owned(),
            BenchmarkError::NoParticipantChosen => "请至少选择一个参赛节点".to_owned(),
            BenchmarkError::SelectionIncomplete => "参赛列表没有完整保存，请重新预览后再试".to_owned(),
            BenchmarkError::SelectionMissing => "请先选择订阅、勾选节点并保存参赛列表".to_owned(),
            BenchmarkError::SelectionOutdated => "订阅节点已经发生变化，请重新检查并保存参赛列表".to_owned(),
            BenchmarkError::NoParticipantStored => "请先勾选并保存至少一个参赛节点".to_owned(),
            BenchmarkError::ReservedState => "该状态只能由订阅变化产生".to_owned(),
            BenchmarkError::NoNodeNamed => "至少选择一个节点".to_owned(),
            BenchmarkError::StillEnabled => "请先停止节点评选，再清理历史测试数据".to_owned(),
            BenchmarkError::EnabledAgain => "节点评选已经重新运行，请停止后再清理".to_owned(),
            BenchmarkError::ManualBatchRunning => "仍有手动批量测速正在运行，请先停止后再清理".to_owned(),
            BenchmarkError::EmptyBatch => "没有可测速节点".to_owned(),
            BenchmarkError::NoCurrentProfile => "当前没有选中的订阅，无法建立独立测速配置".to_owned(),
            BenchmarkError::UnknownBatch => "找不到手动测速任务".to_owned(),
            BenchmarkError::UnknownBatchToCancel => "找不到可取消的手动测速任务".to_owned(),
            BenchmarkError::UnknownNode => "找不到需要更新的节点".to_owned(),
            BenchmarkError::NoCandidate => "当前范围内没有可确认的节点，请先保存并预览".to_owned(),
            BenchmarkError::CandidatesChanged => "参赛节点列表已经变化，请重新预览后再确认".to_owned(),
            BenchmarkError::LatencyInSpeedSchedule => "延迟任务不能写入速度调度".to_owned(),
            BenchmarkError::LatencyInSpeedQueue => "延迟任务不能进入速度队列".to_owned(),
            BenchmarkError::ForeignNode => "FOREIGN KEY constraint failed".to_owned(),
            BenchmarkError::TrafficOverflow => "integer overflow".to_owned(),
            BenchmarkError::InvalidUrl { field, reason } => field.label().to_owned().concat("无效: ").concat(
                reason.as_str(),
            ),
            BenchmarkError::UnsupportedScheme { field } => field.label().to_owned().concat("只支持 HTTP 或 HTTPS"),
            BenchmarkError::EmptySpeedUrl => "测速链接不能为空".to_owned(),
            BenchmarkError::NoProxySource => "订阅中没有可用于测速的代理或代理提供者".to_owned(),
            BenchmarkError::UnknownProfile { profile_uid } => "找不到订阅 ".to_owned().concat(profile_uid.as_str()),
            BenchmarkError::ProfileNotTestable => "所选配置不是可测速订阅".to_owned(),
            BenchmarkError::Unwritable { reason } => reason.clone(),
            BenchmarkError::NodeListMissing => "独立 Mihomo 未返回测速节点列表".to_owned(),
            BenchmarkError::DelayMissing { node_name } => "节点“".to_owned().concat(node_name.as_str()).concat(
                "”未返回有效延迟",
            ),
        }
    }
}

} // verus!
