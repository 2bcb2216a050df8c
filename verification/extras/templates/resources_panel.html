{% if partial %}
{% for res in resources %}
<div class="flex items-center gap-1.5 p-2 rounded-lg hover:bg-muted transition-colors group/res">
<input type="checkbox" class="res-checkbox rounded border-border/60" value="{{ res.id }}" onchange="updateBulkActions()">
{% if res.is_image %}
<div class="w-10 h-10 rounded-lg overflow-hidden flex-shrink-0 bg-muted dark:bg-muted">
<img src="/resources/{{ res.id }}" class="w-full h-full object-cover" loading="lazy">
</div>
{% else %}
<div class="w-10 h-10 rounded-lg flex-shrink-0 bg-muted dark:bg-muted flex items-center justify-center">
<svg class="w-5 h-5 text-muted-fg" fill="none" stroke="currentColor" viewBox="0 0 24 24">
<path stroke-linecap="round" stroke-linejoin="round" stroke-width="2" d="M7 21h10a2 2 0 002-2V9.414a1 1 0 00-.293-.707l-5.414-5.414A1 1 0 0012.586 3H7a2 2 0 00-2 2v14a2 2 0 002 2z"/>
</svg>
</div>
{% endif %}
<div class="flex-1 min-w-0 cursor-pointer" onclick="insertContenteditable('{% if res.is_image %}![{{ res.original_name }}](/resources/{{ res.id }}){% else %}[{{ res.original_name }}](/resources/{{ res.id }}){% endif %}')">
<p class="text-xs font-medium text-foreground truncate">{{ res.original_name }}</p>
<p class="text-xs text-muted-fg">{{ res.size_str }}</p>
</div>
<button onclick="if(confirm('Delete this resource?')){var e=this;fetch('/resources/{{ res.id }}',{method:'DELETE'}).then(function(r){if(r.ok){e.closest('.group\\/res').remove();refreshResourcesPanel();htmx.trigger('body','memoUpdated')}})}"
class="p-1 rounded-md text-muted-fg hover:text-red-500 hover:bg-red-50 dark:hover:bg-red-900/20 transition-all" title="Delete">
<svg class="w-3.5 h-3.5" fill="none" stroke="currentColor" viewBox="0 0 24 24">
<path stroke-linecap="round" stroke-linejoin="round" stroke-width="2" d="M19 7l-.867 12.142A2 2 0 0116.138 21H7.862a2 2 0 01-1.995-1.858L5 7m5 4v6m4-6v6m1-10V4a1 1 0 00-1-1h-4a1 1 0 00-1 1v3M4 7h16"/>
</svg>
</button>
</div>
{% endfor %}
{% if next_offset %}
<div id="sentinel-res-{{ offset }}" class="h-4"
hx-get="/resources-feed?offset={{ next_offset }}"
hx-trigger="revealed"
hx-swap="outerHTML"></div>
{% endif %}
{% else %}
<div class="flex flex-col h-full">
<div class="px-4 py-3 border-b border-border flex-shrink-0">
<h2 class="text-xs font-semibold text-muted-fg uppercase tracking-wider">Resources</h2>
</div>
<div class="px-3 py-2 border-b border-border flex-shrink-0">
<div class="relative">
<input type="file" multiple id="file-input" class="hidden" onchange="uploadFiles(this.files)">
<button onclick="document.getElementById('file-input').click()"
class="w-full px-3 py-2 text-xs font-medium text-accent-600 dark:text-accent-400 bg-accent-50 dark:bg-accent-900/20 hover:bg-accent-100 dark:hover:bg-accent-900/30 rounded-lg transition-colors text-center">
Upload Files
</button>
</div>
</div>
<div id="bulk-actions" class="hidden px-3 py-1.5 border-b border-border flex-shrink-0 flex items-center justify-between bg-muted/20">
<label class="flex items-center gap-1.5 text-xs text-muted-fg cursor-pointer">
<input type="checkbox" id="select-all" onchange="toggleSelectAll()" class="rounded border-border">
Select All
</label>
<button onclick="deleteSelectedResources()" class="px-2 py-1 text-xs font-medium text-red-500 hover:bg-red-50 dark:hover:bg-red-900/20 rounded-md transition-colors">
Delete Selected (<span id="selected-count">0</span>)
</button>
</div>
<div class="flex-1 overflow-y-auto p-2 space-y-1" id="resources-list">
{% if resources %}
<p class="text-xs text-muted-fg px-2 pb-1.5 border-b border-border/30 mb-1">Click a resource to add it to your note.</p>
{% for res in resources %}
<div class="flex items-center gap-1.5 p-2 rounded-lg hover:bg-muted transition-colors group/res">
<input type="checkbox" class="res-checkbox rounded border-border/60" value="{{ res.id }}" onchange="updateBulkActions()">
{% if res.is_image %}
<div class="w-10 h-10 rounded-lg overflow-hidden flex-shrink-0 bg-muted dark:bg-muted">
<img src="/resources/{{ res.id }}" class="w-full h-full object-cover" loading="lazy">
</div>
{% else %}
<div class="w-10 h-10 rounded-lg flex-shrink-0 bg-muted dark:bg-muted flex items-center justify-center">
<svg class="w-5 h-5 text-muted-fg" fill="none" stroke="currentColor" viewBox="0 0 24 24">
<path stroke-linecap="round" stroke-linejoin="round" stroke-width="2" d="M7 21h10a2 2 0 002-2V9.414a1 1 0 00-.293-.707l-5.414-5.414A1 1 0 0012.586 3H7a2 2 0 00-2 2v14a2 2 0 002 2z"/>
</svg>
</div>
{% endif %}
<div class="flex-1 min-w-0 cursor-pointer" onclick="insertContenteditable('{% if res.is_image %}![{{ res.original_name }}](/resources/{{ res.id }}){% else %}[{{ res.original_name }}](/resources/{{ res.id }}){% endif %}')">
<p class="text-xs font-medium text-foreground truncate">{{ res.original_name }}</p>
<p class="text-xs text-muted-fg">{{ res.size_str }}</p>
</div>
<button onclick="if(confirm('Delete this resource?')){var e=this;fetch('/resources/{{ res.id }}',{method:'DELETE'}).then(function(r){if(r.ok){e.closest('.group\\/res').remove();refreshResourcesPanel();htmx.trigger('body','memoUpdated')}})}"
class="p-1 rounded-md text-muted-fg hover:text-red-500 hover:bg-red-50 dark:hover:bg-red-900/20 transition-all" title="Delete">
<svg class="w-3.5 h-3.5" fill="none" stroke="currentColor" viewBox="0 0 24 24">
<path stroke-linecap="round" stroke-linejoin="round" stroke-width="2" d="M19 7l-.867 12.142A2 2 0 0116.138 21H7.862a2 2 0 01-1.995-1.858L5 7m5 4v6m4-6v6m1-10V4a1 1 0 00-1-1h-4a1 1 0 00-1 1v3M4 7h16"/>
</svg>
</button>
</div>
{% endfor %}
{% else %}
<p class="text-xs text-muted-fg text-center py-10">No resources yet.<br>Drag & drop files into the editor or click Upload.</p>
{% endif %}
{% if next_offset %}
<div id="sentinel-res-{{ offset }}" class="h-4"
hx-get="/resources-feed?offset={{ next_offset }}"
hx-trigger="revealed"
hx-swap="outerHTML"></div>
{% endif %}
</div>
</div>
{% endif %}